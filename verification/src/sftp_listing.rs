//! What `sftp` is asked for and what it prints: directories, and the files in them.

use vstd::prelude::*;
use crate::process;
use crate::process::{lossy_text, CommandOutput};
use crate::text;
use crate::text::{
    chars_of, concat, join_from, push_text, replace_char, same, split_lines, split_words,
    starts_with, take_before, text_of, trimmed, without_trailing,
};

verus! {

/// A file or a directory of a listing.
#[derive(Debug)]
pub struct SftpEntry {
    pub path: String,
    pub is_dir: bool,
}

impl Clone for SftpEntry {
    fn clone(&self) -> (copy: Self)
        ensures
            copy == *self,
    {
        SftpEntry { path: self.path.clone(), is_dir: self.is_dir }
    }
}

/// An [`SftpEntry`] as a value.
pub struct EntryView {
    pub path: Seq<char>,
    pub is_dir: bool,
}

impl View for SftpEntry {
    type V = EntryView;

    open spec fn view(&self) -> EntryView {
        EntryView { path: self.path@, is_dir: self.is_dir }
    }
}

pub open spec fn entry_views(entries: Seq<SftpEntry>) -> Seq<EntryView> {
    entries.map_values(|e: SftpEntry| e@)
}

/// Why a directory could not be listed.
#[derive(Debug)]
pub enum SftpError {
    /// `sftp` refused to list a directory; its error output.
    ListFailed(String),
    /// `sftp` refused to list the first directory; its error output.
    InitialListFailed(String),
    /// The first directory has no usable path.
    InvalidRootPath { path: String, cause: String },
    /// A file in a directory has no usable path.
    InvalidChildPath { path: String, cause: String },
}

// ---------------------------------------------------------------------------------------------
// Specification
// ---------------------------------------------------------------------------------------------

/// A path in double quotes, with a backslash in front of every quote and backslash of its own.
pub open spec fn quoted(path: Seq<char>) -> Seq<char> {
    seq!['"'] + escaped(path) + seq!['"']
}

pub open spec fn escaped(path: Seq<char>) -> Seq<char> {
    text::replace(text::replace(path, '\\', seq!['\\', '\\']), '"', seq!['\\', '"'])
}

pub open spec fn pwd_prefix() -> Seq<char> {
    "Remote working directory: "@
}

/// The directory that a line names as the working directory.
pub open spec fn pwd_of_line(line: Seq<char>) -> Option<Seq<char>> {
    if pwd_prefix().is_prefix_of(line) {
        let path = text::trim(line.skip(pwd_prefix().len() as int));
        if path.len() > 0 {
            Some(path)
        } else {
            None
        }
    } else {
        None
    }
}

/// The directory of the first line that names one.
pub open spec fn first_pwd(lines: Seq<Seq<char>>) -> Option<Seq<char>>
    decreases lines.len(),
{
    if lines.len() == 0 {
        None
    } else if pwd_of_line(lines[0]) is Some {
        pwd_of_line(lines[0])
    } else {
        first_pwd(lines.skip(1))
    }
}

/// The working directory that an output names.
pub open spec fn remote_pwd(output: Seq<char>) -> Option<Seq<char>> {
    first_pwd(text::lines(output))
}

/// The path of `name` in the directory `parent`.
pub open spec fn child_path(parent: Seq<char>, name: Seq<char>) -> Seq<char> {
    text::trim_end_matches(parent, '/') + seq!['/'] + name
}

/// A line, without the whitespace around it, that `sftp` says of itself.
pub open spec fn is_chatter(line: Seq<char>) -> bool {
    ||| "sftp>"@.is_prefix_of(line)
    ||| "Remote working directory:"@.is_prefix_of(line)
    ||| "Connected to "@.is_prefix_of(line)
    ||| "Changing to:"@.is_prefix_of(line)
}

/// A line, without the whitespace around it, that can describe a directory, a file or a link.
pub open spec fn is_row(line: Seq<char>) -> bool {
    line.len() > 0 && !is_chatter(line) && (line[0] == 'd' || line[0] == '-' || line[0] == 'l')
}

/// The name in a row: what follows the first eight words, with single spaces between the words, up
/// to the arrow in front of a link's target.
pub open spec fn row_name(line: Seq<char>) -> Seq<char> {
    let words = text::words(line);
    if words.len() <= 8 {
        Seq::empty()
    } else {
        text::trim(text::before(text::join_spaced(words.skip(8)), " -> "@))
    }
}

/// What a line of a listing of `parent` describes.
pub open spec fn entry_of_line(line: Seq<char>, parent: Seq<char>) -> Option<EntryView> {
    let row = text::trim(line);
    if !is_row(row) {
        None
    } else {
        let name = row_name(row);
        if name.len() == 0 || name == "."@ || name == ".."@ {
            None
        } else {
            Some(EntryView { path: child_path(parent, name), is_dir: row[0] == 'd' })
        }
    }
}

/// What the lines of a listing of `parent` describe, in their order.
pub open spec fn entries_of_lines(lines: Seq<Seq<char>>, parent: Seq<char>) -> Seq<EntryView>
    decreases lines.len(),
{
    if lines.len() == 0 {
        Seq::empty()
    } else {
        let rest = entries_of_lines(lines.drop_last(), parent);
        match entry_of_line(lines.last(), parent) {
            Some(entry) => rest.push(entry),
            None => rest,
        }
    }
}

/// What a listing of `parent` describes.
pub open spec fn listed(output: Seq<char>, parent: Seq<char>) -> Seq<EntryView> {
    entries_of_lines(text::lines(output), parent)
}

/// The index of the first `Err`, or the length where there is none.
pub open spec fn first_err(results: Seq<Result<String, String>>) -> nat
    decreases results.len(),
{
    if results.len() == 0 || results[0] is Err {
        0
    } else {
        1 + first_err(results.skip(1))
    }
}

/// Entries with other paths.
pub open spec fn with_paths(
    entries: Seq<EntryView>,
    paths: Seq<Result<String, String>>,
) -> Seq<EntryView> {
    Seq::new(
        entries.len(),
        |i: int| EntryView { path: paths[i]->Ok_0@, is_dir: entries[i].is_dir },
    )
}

/// The text of an error, with its cause.
pub open spec fn error_text(error: SftpError) -> Seq<char> {
    match error {
        SftpError::ListFailed(stderr) => "sftp ls failed: "@ + stderr@,
        SftpError::InitialListFailed(stderr) => "sftp initial list failed: "@ + stderr@,
        SftpError::InvalidRootPath { path, cause } => "invalid remote root path: "@ + path@ + ": "@
            + cause@,
        SftpError::InvalidChildPath { path, cause } => "invalid remote child path: "@ + path@
            + ": "@ + cause@,
    }
}

/// The index behind the last `c` of `s`, or 0 where there is none.
pub open spec fn after_last(s: Seq<char>, c: char) -> nat
    decreases s.len(),
{
    if s.len() == 0 || s.last() == c {
        s.len()
    } else {
        after_last(s.drop_last(), c)
    }
}

/// Whether `c` parts the components of a path. Every machine takes the slash; `backslash` says whether
/// this one takes the backslash too.
pub open spec fn is_separator(c: char, backslash: bool) -> bool {
    c == '/' || (backslash && c == '\\')
}

/// The index behind the last separator of `path`, or 0 where there is none.
pub open spec fn name_start(path: Seq<char>, backslash: bool) -> nat
    decreases path.len(),
{
    if path.len() == 0 || is_separator(path.last(), backslash) {
        path.len()
    } else {
        name_start(path.drop_last(), backslash)
    }
}

pub proof fn lemma_name_start(path: Seq<char>, backslash: bool)
    ensures
        name_start(path, backslash) <= path.len(),
    decreases path.len(),
{
    if path.len() > 0 && !is_separator(path.last(), backslash) {
        lemma_name_start(path.drop_last(), backslash);
    }
}

/// The last component of a path, where separators behind and components `.` do not count. There is
/// none where that component is `..`, or where nothing is left.
pub open spec fn file_name(path: Seq<char>, backslash: bool) -> Option<Seq<char>>
    decreases path.len(),
{
    if path.len() == 0 {
        None
    } else if is_separator(path.last(), backslash) {
        file_name(path.drop_last(), backslash)
    } else {
        let start = name_start(path, backslash) as int;
        let name = path.skip(start);
        if name == seq!['.', '.'] {
            None
        } else if name == seq!['.'] {
            proof {
                lemma_name_start(path.drop_last(), backslash);
            }
            file_name(path.take(start), backslash)
        } else {
            Some(name)
        }
    }
}

/// What follows the last dot of a file name, unless that dot is its first character.
pub open spec fn extension_of_name(name: Seq<char>) -> Option<Seq<char>> {
    let start = after_last(name, '.');
    if start <= 1 {
        None
    } else {
        Some(name.skip(start as int))
    }
}

/// The extension of the last component of a path.
pub open spec fn extension(path: Seq<char>, backslash: bool) -> Option<Seq<char>> {
    match file_name(path, backslash) {
        Some(name) => extension_of_name(name),
        None => None,
    }
}

/// Whether no machine takes the beginning of `path` for a drive, a share or a device: behind a first
/// separator stands no second one, and behind any other first character no colon.
pub open spec fn has_no_prefix(path: Seq<char>) -> bool {
    path.len() >= 2 ==> if is_separator(path[0], true) {
        !is_separator(path[1], true)
    } else {
        path[1] != ':'
    }
}

/// `e` has no dot, and stands right behind one in `path`.
pub open spec fn follows_a_dot(path: Seq<char>, e: Seq<char>) -> bool {
    &&& forall|i: int| 0 <= i < e.len() ==> #[trigger] e[i] != '.'
    &&& exists|i: int|
        0 <= i < path.len() - e.len() && #[trigger] path[i] == '.' && path.subrange(
            i + 1,
            i + 1 + e.len(),
        ) == e
}

/// `ext` is what some machine takes for the extension of `path`. Machines differ in whether a backslash
/// is a separator, and in what they make of a drive, a share or a device.
pub open spec fn may_be_extension(path: Seq<char>, ext: Option<Seq<char>>) -> bool {
    &&& has_no_prefix(path) ==> ext == extension(path, false) || ext == extension(path, true)
    &&& ext matches Some(e) ==> follows_a_dot(path, e)
}

/// The characters of a text that may be missing.
pub open spec fn opt_view(text: Option<String>) -> Option<Seq<char>> {
    match text {
        Some(t) => Some(t@),
        None => None,
    }
}

// ---------------------------------------------------------------------------------------------
// Executable functions
// ---------------------------------------------------------------------------------------------

/// A path as one word of an `sftp` command.
pub fn quote_sftp_path(path: &str) -> (word: String)
    ensures
        word@ == quoted(path@),
{
    proof {
        reveal_strlit("\\\\");
        reveal_strlit("\\\"");
        assert("\\\\"@ =~= seq!['\\', '\\']);
        assert("\\\""@ =~= seq!['\\', '"']);
    }
    let once = replace_char(chars_of(path).as_slice(), '\\', "\\\\");
    let twice = replace_char(once.as_slice(), '"', "\\\"");
    let mut word = String::new();
    word.push('"');
    push_text(&mut word, text_of(twice.as_slice()).as_str());
    word.push('"');
    assert(word@ =~= quoted(path@));
    word
}

fn pwd_in_line(line: &[char]) -> (path: Option<String>)
    ensures
        match path {
            Some(p) => pwd_of_line(line@) == Some(p@),
            None => pwd_of_line(line@) is None,
        },
{
    let prefix = chars_of("Remote working directory: ");
    if !starts_with(line, "Remote working directory: ") {
        return None;
    }
    let rest = text::copy_range(line, prefix.len(), line.len());
    assert(rest@ =~= line@.skip(pwd_prefix().len() as int));
    let path = trimmed(rest.as_slice());
    if path.len() == 0 {
        None
    } else {
        Some(text_of(path.as_slice()))
    }
}

/// The working directory that an output of `sftp` names.
pub fn parse_remote_pwd(output: &str) -> (path: Option<String>)
    ensures
        match path {
            Some(p) => remote_pwd(output@) == Some(p@),
            None => remote_pwd(output@) is None,
        },
{
    let lines = split_lines(chars_of(output).as_slice());
    let ghost all = text::lines(output@);
    assert(all.skip(0) =~= all);
    for i in 0..lines.len()
        invariant
            all == text::contents(lines@),
            all == text::lines(output@),
            remote_pwd(output@) == first_pwd(all.skip(i as int)),
    {
        assert(all.skip(i as int)[0] == lines@[i as int]@);
        let path = pwd_in_line(lines[i].as_slice());
        if path.is_some() {
            return path;
        }
        assert(all.skip(i as int).skip(1) =~= all.skip(i + 1));
    }
    None
}

/// The path of `name` in the directory `parent`.
pub fn remote_child_path(parent: &str, name: &str) -> (path: String)
    ensures
        path@ == child_path(parent@, name@),
        parent@.len() > 0 && parent@.last() != '/' ==> path@ == parent@.push('/') + name@,
{
    let chars = without_trailing(chars_of(parent).as_slice(), '/');
    let mut path = text_of(chars.as_slice());
    path.push('/');
    push_text(&mut path, name);
    path
}

fn chatter(line: &[char]) -> (b: bool)
    ensures
        b == is_chatter(line@),
{
    starts_with(line, "sftp>") || starts_with(line, "Remote working directory:") || starts_with(
        line,
        "Connected to ",
    ) || starts_with(line, "Changing to:")
}

fn name_in_row(row: &[char]) -> (name: Vec<char>)
    ensures
        name@ == row_name(row@),
{
    let words = split_words(row);
    assert(text::contents(words@).len() == words@.len());
    if words.len() <= 8 {
        let name: Vec<char> = Vec::new();
        assert(name@ =~= row_name(row@));
        name
    } else {
        let joined = join_from(&words, 8);
        trimmed(take_before(joined.as_slice(), " -> ").as_slice())
    }
}

fn entry_in_line(line: &[char], parent: &str) -> (entry: Option<SftpEntry>)
    ensures
        match entry {
            Some(e) => entry_of_line(line@, parent@) == Some(e@),
            None => entry_of_line(line@, parent@) is None,
        },
{
    let row = trimmed(line);
    if row.len() == 0 || chatter(row.as_slice()) {
        return None;
    }
    let first = row[0];
    if first != 'd' && first != '-' && first != 'l' {
        return None;
    }
    let name = name_in_row(row.as_slice());
    if name.len() == 0 || same(name.as_slice(), chars_of(".").as_slice()) || same(
        name.as_slice(),
        chars_of("..").as_slice(),
    ) {
        return None;
    }
    let path = remote_child_path(parent, text_of(name.as_slice()).as_str());
    Some(SftpEntry { path, is_dir: first == 'd' })
}

/// The files and directories in a listing of the directory `parent`. The paths are still as they come
/// out of the listing; [`standardize_entries`] takes them on.
pub fn parse_sftp_ls(output: &str, parent: &str) -> (entries: Vec<SftpEntry>)
    ensures
        entry_views(entries@) == listed(output@, parent@),
{
    let lines = split_lines(chars_of(output).as_slice());
    let ghost all = text::lines(output@);
    let mut entries: Vec<SftpEntry> = Vec::new();
    assert(entry_views(entries@) =~= entries_of_lines(all.take(0), parent@));
    for i in 0..lines.len()
        invariant
            all == text::contents(lines@),
            entry_views(entries@) == entries_of_lines(all.take(i as int), parent@),
    {
        let ghost before = entry_views(entries@);
        assert(all.take(i + 1).drop_last() =~= all.take(i as int));
        assert(all.take(i + 1).last() == lines@[i as int]@);
        if let Some(entry) = entry_in_line(lines[i].as_slice(), parent) {
            entries.push(entry);
            assert(entry_views(entries@) =~= before.push(entry@));
        }
    }
    assert(all.take(all.len() as int) =~= all);
    entries
}

/// The entries under the paths that the path library makes of theirs, one result for each entry, with
/// the text of its error where it refuses one. The first path that it refuses decides.
pub fn standardize_entries(
    entries: Vec<SftpEntry>,
    standardized: Vec<Result<String, String>>,
) -> (result: Result<Vec<SftpEntry>, SftpError>)
    requires
        standardized@.len() == entries@.len(),
    ensures
        match result {
            Ok(list) => first_err(standardized@) == standardized@.len() && entry_views(list@)
                == with_paths(entry_views(entries@), standardized@),
            Err(error) => {
                let k = first_err(standardized@) as int;
                &&& k < standardized@.len()
                &&& error matches SftpError::InvalidChildPath { path, cause }
                &&& path@ == entries@[k].path@
                &&& cause@ == standardized@[k]->Err_0@
            },
        },
{
    let mut list: Vec<SftpEntry> = Vec::new();
    let ghost goal = with_paths(entry_views(entries@), standardized@);
    assert(standardized@.skip(0) =~= standardized@);
    for i in 0..entries.len()
        invariant
            standardized@.len() == entries@.len(),
            goal == with_paths(entry_views(entries@), standardized@),
            entry_views(list@) == goal.take(i as int),
            first_err(standardized@) == i + first_err(standardized@.skip(i as int)),
    {
        let ghost before = entry_views(list@);
        assert(standardized@.skip(i as int)[0] == standardized@[i as int]);
        match &standardized[i] {
            Ok(path) => {
                let entry = SftpEntry { path: path.clone(), is_dir: entries[i].is_dir };
                list.push(entry);
                assert(entry_views(list@) =~= before.push(entry@));
                assert(goal.take(i + 1) =~= goal.take(i as int).push(goal[i as int]));
                assert(standardized@.skip(i as int).skip(1) =~= standardized@.skip(i + 1));
            },
            Err(cause) => {
                return Err(
                    SftpError::InvalidChildPath {
                        path: entries[i].path.clone(),
                        cause: cause.clone(),
                    },
                );
            },
        }
    }
    assert(goal.take(goal.len() as int) =~= goal);
    Ok(list)
}

impl SftpError {
    /// The text of the error, with its cause.
    pub fn message(&self) -> (message: String)
        ensures
            message@ == error_text(*self),
    {
        match self {
            SftpError::ListFailed(stderr) => concat("sftp ls failed: ", stderr.as_str()),
            SftpError::InitialListFailed(stderr) => concat(
                "sftp initial list failed: ",
                stderr.as_str(),
            ),
            SftpError::InvalidRootPath { path, cause } => {
                let mut message = concat("invalid remote root path: ", path.as_str());
                push_text(&mut message, ": ");
                push_text(&mut message, cause.as_str());
                message
            },
            SftpError::InvalidChildPath { path, cause } => {
                let mut message = concat("invalid remote child path: ", path.as_str());
                push_text(&mut message, ": ");
                push_text(&mut message, cause.as_str());
                message
            },
        }
    }
}

// ---------------------------------------------------------------------------------------------
// Listings
// ---------------------------------------------------------------------------------------------

/// What comes of the listing of a directory, given the texts that `sftp` printed.
pub fn directory_entries_in(
    success: bool,
    stdout: &str,
    stderr: &str,
    dir_path: &str,
) -> (result: Result<Vec<SftpEntry>, SftpError>)
    ensures
        match result {
            Ok(entries) => success && entry_views(entries@) == listed(stdout@, dir_path@),
            Err(error) => !success && (error matches SftpError::ListFailed(text) && text@
                == stderr@),
        },
{
    if !success {
        return Err(SftpError::ListFailed(stderr.to_owned()));
    }
    Ok(parse_sftp_ls(stdout, dir_path))
}

/// What comes of the listing of a directory.
pub fn directory_entries(output: &CommandOutput, dir_path: &str) -> (result: Result<
    Vec<SftpEntry>,
    SftpError,
>)
    ensures
        match result {
            Ok(entries) => output.success && entry_views(entries@) == listed(
                process::utf8_lossy(output.stdout@),
                dir_path@,
            ),
            Err(error) => !output.success && (error matches SftpError::ListFailed(text) && text@
                == process::utf8_lossy(output.stderr@)),
        },
{
    let stdout = lossy_text(output.stdout.as_slice());
    let stderr = lossy_text(output.stderr.as_slice());
    directory_entries_in(output.success, stdout.as_str(), stderr.as_str(), dir_path)
}

/// The first listing of a host.
#[derive(Debug)]
pub struct InitialListing {
    /// The directory that `sftp` starts in.
    pub root: String,
    /// What `sftp` printed.
    pub stdout: String,
}

/// The directory that `sftp` starts in; the root of the host where the output does not name it.
pub open spec fn initial_root(output: Seq<char>) -> Seq<char> {
    match remote_pwd(output) {
        Some(path) => path,
        None => "/"@,
    }
}

/// What comes of the first listing of a host, given the texts that `sftp` printed.
pub fn initial_listing_in(success: bool, stdout: &str, stderr: &str) -> (result: Result<
    InitialListing,
    SftpError,
>)
    ensures
        match result {
            Ok(listing) => success && listing.root@ == initial_root(stdout@) && listing.stdout@
                == stdout@,
            Err(error) => !success && (error matches SftpError::InitialListFailed(text) && text@
                == stderr@),
        },
{
    if !success {
        return Err(SftpError::InitialListFailed(stderr.to_owned()));
    }
    let root = match parse_remote_pwd(stdout) {
        Some(path) => path,
        None => "/".to_owned(),
    };
    Ok(InitialListing { root, stdout: stdout.to_owned() })
}

/// What comes of the first listing of a host.
pub fn initial_listing(output: &CommandOutput) -> (result: Result<InitialListing, SftpError>)
    ensures
        match result {
            Ok(listing) => output.success && listing.root@ == initial_root(
                process::utf8_lossy(output.stdout@),
            ) && listing.stdout@ == process::utf8_lossy(output.stdout@),
            Err(error) => !output.success && (error matches SftpError::InitialListFailed(text)
                && text@ == process::utf8_lossy(output.stderr@)),
        },
{
    let stdout = lossy_text(output.stdout.as_slice());
    let stderr = lossy_text(output.stderr.as_slice());
    initial_listing_in(output.success, stdout.as_str(), stderr.as_str())
}

/// The path of the first directory, as the path library makes it of the text `root`, or the text of
/// the error with which it refuses.
pub fn initial_root_path(root: &str, standardized: Result<String, String>) -> (result: Result<
    String,
    SftpError,
>)
    ensures
        match standardized {
            Ok(path) => result matches Ok(p) && p@ == path@,
            Err(text) => result matches Err(SftpError::InvalidRootPath { path, cause }) && path@
                == root@ && cause@ == text@,
        },
{
    match standardized {
        Ok(path) => Ok(path),
        Err(cause) => Err(SftpError::InvalidRootPath { path: root.to_owned(), cause }),
    }
}

// ---------------------------------------------------------------------------------------------
// The tree of files
// ---------------------------------------------------------------------------------------------

/// A directory of the tree.
#[derive(Debug)]
pub struct DirectoryNodeMetadata {
    pub path: String,
    pub ignored: bool,
    pub loaded: bool,
}

/// A file of the tree.
#[derive(Debug)]
pub struct FileNodeMetadata {
    pub path: String,
    pub extension: Option<String>,
    pub ignored: bool,
}

#[derive(Debug)]
pub enum RepoNodeMetadata {
    Directory(DirectoryNodeMetadata),
    File(FileNodeMetadata),
}

/// A new content for a directory of the tree.
#[derive(Debug)]
pub struct FileTreeEntryUpdate {
    pub parent_path_to_replace: String,
    pub subtree_metadata: Vec<RepoNodeMetadata>,
}

/// A change of the tree under `repo_path`.
#[derive(Debug)]
pub struct RepoMetadataUpdate {
    pub repo_path: String,
    pub remove_entries: Vec<String>,
    pub update_entries: Vec<FileTreeEntryUpdate>,
}

/// A [`RepoNodeMetadata`] as a value.
pub enum NodeView {
    Directory { path: Seq<char>, ignored: bool, loaded: bool },
    File { path: Seq<char>, extension: Option<Seq<char>>, ignored: bool },
}

impl View for RepoNodeMetadata {
    type V = NodeView;

    open spec fn view(&self) -> NodeView {
        match self {
            RepoNodeMetadata::Directory(d) => NodeView::Directory {
                path: d.path@,
                ignored: d.ignored,
                loaded: d.loaded,
            },
            RepoNodeMetadata::File(f) => NodeView::File {
                path: f.path@,
                extension: opt_view(f.extension),
                ignored: f.ignored,
            },
        }
    }
}

pub open spec fn node_views(nodes: Seq<RepoNodeMetadata>) -> Seq<NodeView> {
    nodes.map_values(|n: RepoNodeMetadata| n@)
}

/// The node of an entry: a directory of which nothing is known yet, or a file with the extension
/// `ext`.
pub open spec fn node_of(entry: EntryView, ext: Option<Seq<char>>) -> NodeView {
    if entry.is_dir {
        NodeView::Directory { path: entry.path, ignored: false, loaded: false }
    } else {
        NodeView::File { path: entry.path, extension: ext, ignored: false }
    }
}

pub open spec fn nodes_of(entries: Seq<EntryView>, exts: Seq<Option<Seq<char>>>) -> Seq<NodeView> {
    Seq::new(entries.len(), |i: int| node_of(entries[i], exts[i]))
}

pub open spec fn ext_views(exts: Seq<Option<String>>) -> Seq<Option<Seq<char>>> {
    exts.map_values(|e: Option<String>| opt_view(e))
}

/// `node` is the node of `entry` on some machine.
pub open spec fn is_node_of(entry: EntryView, node: NodeView) -> bool {
    if entry.is_dir {
        node == node_of(entry, None)
    } else {
        &&& node matches NodeView::File { extension: ext, .. }
        &&& node == node_of(entry, ext)
        &&& may_be_extension(entry.path, ext)
    }
}

/// `nodes` are the nodes of `entries` on some machine, one for each and in the same order.
pub open spec fn mirrors(entries: Seq<EntryView>, nodes: Seq<NodeView>) -> bool {
    &&& nodes.len() == entries.len()
    &&& forall|i: int| 0 <= i < entries.len() ==> is_node_of(entries[i], #[trigger] nodes[i])
}

/// `update` puts `nodes` in place of what `dir_path` holds in the tree under `repo_root`, and removes
/// nothing.
pub open spec fn puts(
    update: RepoMetadataUpdate,
    repo_root: Seq<char>,
    dir_path: Seq<char>,
    nodes: Seq<NodeView>,
) -> bool {
    &&& update.repo_path@ == repo_root
    &&& update.remove_entries@.len() == 0
    &&& update.update_entries@.len() == 1
    &&& update.update_entries@[0].parent_path_to_replace@ == dir_path
    &&& node_views(update.update_entries@[0].subtree_metadata@) == nodes
}

/// The nodes that `update` puts in place.
pub open spec fn nodes_put(update: RepoMetadataUpdate) -> Seq<NodeView> {
    node_views(update.update_entries@[0].subtree_metadata@)
}

/// `std::path::Path::extension`, by the rules of the machine that this runs on. The extension has no dot
/// and stands behind one in the path. Of a path that no machine takes for one on a drive, a share or
/// a device, it is what follows the last dot of the last component, where the components are parted
/// by slashes, or by slashes and backslashes. Which of the two is not said, nor more of other paths.
#[verifier::external_body]
fn machine_extension(path: &str) -> (ext: Option<String>)
    ensures
        may_be_extension(path@, opt_view(ext)),
{
    match std::path::Path::new(path).extension() {
        Some(ext) => ext.to_str().map(str::to_owned),
        None => None,
    }
}

/// The change that puts a listing of `dir_path` into the tree under `repo_root`, given the extension of
/// every entry; that of a directory is not used.
pub fn update_with_extensions(
    repo_root: String,
    dir_path: String,
    entries: Vec<SftpEntry>,
    extensions: Vec<Option<String>>,
) -> (update: RepoMetadataUpdate)
    requires
        extensions@.len() == entries@.len(),
    ensures
        puts(
            update,
            repo_root@,
            dir_path@,
            nodes_of(entry_views(entries@), ext_views(extensions@)),
        ),
{
    let mut nodes: Vec<RepoNodeMetadata> = Vec::new();
    let ghost goal = nodes_of(entry_views(entries@), ext_views(extensions@));
    for i in 0..entries.len()
        invariant
            extensions@.len() == entries@.len(),
            goal == nodes_of(entry_views(entries@), ext_views(extensions@)),
            node_views(nodes@) == goal.take(i as int),
    {
        let ghost before = node_views(nodes@);
        let entry = &entries[i];
        let node = if entry.is_dir {
            RepoNodeMetadata::Directory(
                DirectoryNodeMetadata { path: entry.path.clone(), ignored: false, loaded: false },
            )
        } else {
            let extension = match &extensions[i] {
                Some(ext) => Some(ext.clone()),
                None => None,
            };
            RepoNodeMetadata::File(
                FileNodeMetadata { extension, path: entry.path.clone(), ignored: false },
            )
        };
        nodes.push(node);
        assert(node@ == goal[i as int]);
        assert(node_views(nodes@) =~= before.push(node@));
        assert(goal.take(i + 1) =~= goal.take(i as int).push(goal[i as int]));
    }
    assert(goal.take(goal.len() as int) =~= goal);
    let mut update_entries: Vec<FileTreeEntryUpdate> = Vec::new();
    update_entries.push(
        FileTreeEntryUpdate { parent_path_to_replace: dir_path, subtree_metadata: nodes },
    );
    RepoMetadataUpdate { repo_path: repo_root, remove_entries: Vec::new(), update_entries }
}

/// The change that puts a listing of `dir_path` into the tree under `repo_root`: it replaces what the
/// directory holds, and removes nothing. The extensions of the files are those that this machine
/// sees.
pub fn update_for_directory(
    repo_root: String,
    dir_path: String,
    entries: Vec<SftpEntry>,
) -> (update: RepoMetadataUpdate)
    ensures
        puts(update, repo_root@, dir_path@, nodes_put(update)),
        mirrors(entry_views(entries@), nodes_put(update)),
{
    let mut extensions: Vec<Option<String>> = Vec::new();
    for i in 0..entries.len()
        invariant
            extensions@.len() == i,
            forall|j: int|
                0 <= j < i && !entries@[j].is_dir ==> may_be_extension(
                    entries@[j].path@,
                    opt_view(#[trigger] extensions@[j]),
                ),
    {
        let extension = if entries[i].is_dir {
            None
        } else {
            machine_extension(entries[i].path.as_str())
        };
        extensions.push(extension);
    }
    let ghost nodes = nodes_of(entry_views(entries@), ext_views(extensions@));
    assert forall|i: int| 0 <= i < entries@.len() implies is_node_of(
        entry_views(entries@)[i],
        #[trigger] nodes[i],
    ) by {
        assert(ext_views(extensions@)[i] == opt_view(extensions@[i]));
    }
    update_with_extensions(repo_root, dir_path, entries, extensions)
}

/// The change that puts a listing of `dir_path` into the tree, once the path library has had its say
/// on the path of every entry. The first path that it refuses makes the listing fail.
pub fn directory_update(
    repo_root: String,
    dir_path: String,
    entries: Vec<SftpEntry>,
    standardized: Vec<Result<String, String>>,
) -> (result: Result<RepoMetadataUpdate, SftpError>)
    requires
        standardized@.len() == entries@.len(),
    ensures
        match result {
            Ok(update) => {
                &&& first_err(standardized@) == standardized@.len()
                &&& puts(update, repo_root@, dir_path@, nodes_put(update))
                &&& mirrors(with_paths(entry_views(entries@), standardized@), nodes_put(update))
            },
            Err(error) => {
                let k = first_err(standardized@) as int;
                &&& k < standardized@.len()
                &&& error matches SftpError::InvalidChildPath { path, cause }
                &&& path@ == entries@[k].path@
                &&& cause@ == standardized@[k]->Err_0@
            },
        },
{
    match standardize_entries(entries, standardized) {
        Ok(list) => Ok(update_for_directory(repo_root, dir_path, list)),
        Err(error) => Err(error),
    }
}

/// The files and directories of the first listing, whose directory has the standardized path `root`.
pub fn initial_entries(listing: &InitialListing, root: &str) -> (entries: Vec<SftpEntry>)
    ensures
        entry_views(entries@) == listed(listing.stdout@, root@),
{
    parse_sftp_ls(listing.stdout.as_str(), root)
}

/// The change that puts the first listing into the tree, whose root is the directory that was listed;
/// otherwise as [`directory_update`].
pub fn initial_update(
    root: String,
    entries: Vec<SftpEntry>,
    standardized: Vec<Result<String, String>>,
) -> (result: Result<RepoMetadataUpdate, SftpError>)
    requires
        standardized@.len() == entries@.len(),
    ensures
        match result {
            Ok(update) => {
                &&& first_err(standardized@) == standardized@.len()
                &&& puts(update, root@, root@, nodes_put(update))
                &&& mirrors(with_paths(entry_views(entries@), standardized@), nodes_put(update))
            },
            Err(error) => {
                let k = first_err(standardized@) as int;
                &&& k < standardized@.len()
                &&& error matches SftpError::InvalidChildPath { path, cause }
                &&& path@ == entries@[k].path@
                &&& cause@ == standardized@[k]->Err_0@
            },
        },
{
    directory_update(root.clone(), root, entries, standardized)
}

// ---------------------------------------------------------------------------------------------
// Laws
// ---------------------------------------------------------------------------------------------

/// Reads what is in double quotes at the start of `s`, where a backslash stands for the character
/// behind it, and what follows the closing quote.
pub open spec fn read_quoted(s: Seq<char>) -> Option<(Seq<char>, Seq<char>)> {
    if s.len() > 0 && s[0] == '"' {
        read_to_quote(s.skip(1))
    } else {
        None
    }
}

pub open spec fn read_to_quote(s: Seq<char>) -> Option<(Seq<char>, Seq<char>)>
    decreases s.len(),
{
    if s.len() == 0 {
        None
    } else if s[0] == '"' {
        Some((Seq::empty(), s.skip(1)))
    } else if s[0] == '\\' {
        if s.len() == 1 {
            None
        } else {
            match read_to_quote(s.skip(2)) {
                Some((text, rest)) => Some((seq![s[1]] + text, rest)),
                None => None,
            }
        }
    } else {
        match read_to_quote(s.skip(1)) {
            Some((text, rest)) => Some((seq![s[0]] + text, rest)),
            None => None,
        }
    }
}

/// What escaping makes of a single character.
pub open spec fn escaped_char(c: char) -> Seq<char> {
    if c == '\\' || c == '"' {
        seq!['\\', c]
    } else {
        seq![c]
    }
}

proof fn lemma_escaped_step(path: Seq<char>)
    requires
        path.len() > 0,
    ensures
        escaped(path) == escaped_char(path[0]) + escaped(path.skip(1)),
{
    let b = seq!['\\', '\\'];
    let q = seq!['\\', '"'];
    let c = path[0];
    assert(path =~= seq![c] + path.skip(1));
    text::lemma_replace_concat(seq![c], path.skip(1), '\\', b);
    text::lemma_replace_one(c, '\\', b);
    let one = text::replace(seq![c], '\\', b);
    text::lemma_replace_concat(one, text::replace(path.skip(1), '\\', b), '"', q);
    if c == '\\' {
        text::lemma_replace_absent(b, '"', q);
    } else {
        text::lemma_replace_one(c, '"', q);
    }
}

proof fn lemma_read_escaped(path: Seq<char>, rest: Seq<char>)
    ensures
        read_to_quote(escaped(path) + seq!['"'] + rest) == Some((path, rest)),
    decreases path.len(),
{
    let tail = seq!['"'] + rest;
    if path.len() == 0 {
        assert(escaped(path) =~= Seq::<char>::empty());
        assert(escaped(path) + seq!['"'] + rest =~= tail);
        assert(tail.skip(1) =~= rest);
        assert(path =~= Seq::<char>::empty());
    } else {
        lemma_escaped_step(path);
        lemma_read_escaped(path.skip(1), rest);
        let inner = escaped(path.skip(1)) + seq!['"'] + rest;
        let all = escaped(path) + seq!['"'] + rest;
        let one = escaped_char(path[0]);
        assert(all =~= one + inner);
        assert(all.skip(one.len() as int) =~= inner);
        assert(seq![path[0]] + path.skip(1) =~= path);
    }
}

/// A quoted path ends at its own closing quote, and reading it gives the path back, whatever stands
/// behind it.
pub proof fn law_quoted_path_reads_back(path: Seq<char>, rest: Seq<char>)
    ensures
        read_quoted(quoted(path) + rest) == Some((path, rest)),
{
    lemma_read_escaped(path, rest);
    let all = quoted(path) + rest;
    assert(all.skip(1) =~= escaped(path) + seq!['"'] + rest);
}

/// Different paths have different quoted forms.
pub proof fn law_quoting_is_injective(a: Seq<char>, b: Seq<char>)
    requires
        quoted(a) == quoted(b),
    ensures
        a == b,
{
    let none = Seq::<char>::empty();
    law_quoted_path_reads_back(a, none);
    law_quoted_path_reads_back(b, none);
}

/// The line that names a working directory.
pub open spec fn pwd_line(path: Seq<char>) -> Seq<char> {
    (pwd_prefix() + path).push('\n')
}

/// A path that survives a line of its own: not empty, without a newline, and without whitespace at
/// either end.
pub open spec fn fits_a_line(path: Seq<char>) -> bool {
    &&& path.len() > 0
    &&& !text::is_space(path[0])
    &&& !text::is_space(path.last())
    &&& forall|i: int| 0 <= i < path.len() ==> #[trigger] path[i] != '\n'
}

proof fn lemma_pwd_line(path: Seq<char>)
    requires
        fits_a_line(path),
    ensures
        text::lines(pwd_line(path)) == seq![pwd_prefix() + path],
        text::trim(pwd_prefix() + path) == pwd_prefix() + path,
        is_chatter(pwd_prefix() + path),
{
    let line = pwd_prefix() + path;
    reveal_strlit("Remote working directory: ");
    reveal_strlit("Remote working directory:");
    assert(line.last() == path.last());
    assert(line[0] == 'R');
    assert forall|i: int| 0 <= i < line.len() implies #[trigger] line[i] != '\n' by {
        if i >= pwd_prefix().len() {
            assert(line[i] == path[i - pwd_prefix().len()]);
        } else {
            assert(line[i] == pwd_prefix()[i]);
        }
    }
    text::lemma_one_line(line);
    text::lemma_trim_same(line);
    assert("Remote working directory:"@ =~= line.subrange(
        0,
        "Remote working directory:"@.len() as int,
    ));
}

/// The working directory that the first line of an output names is found.
pub proof fn law_pwd_reads_back(path: Seq<char>, rest: Seq<char>)
    requires
        fits_a_line(path),
    ensures
        remote_pwd(pwd_line(path) + rest) == Some(path),
{
    lemma_pwd_line(path);
    text::lemma_lines_concat(pwd_line(path), rest);
    let line = pwd_prefix() + path;
    assert(text::lines(pwd_line(path) + rest)[0] == line);
    assert(pwd_prefix() =~= line.subrange(0, pwd_prefix().len() as int));
    assert(line.skip(pwd_prefix().len() as int) =~= path);
    text::lemma_trim_same(path);
}

proof fn lemma_first_pwd_concat(a: Seq<Seq<char>>, b: Seq<Seq<char>>)
    ensures
        first_pwd(a + b) == if first_pwd(a) is Some {
            first_pwd(a)
        } else {
            first_pwd(b)
        },
    decreases a.len(),
{
    if a.len() == 0 {
        assert(a + b =~= b);
    } else {
        lemma_first_pwd_concat(a.skip(1), b);
        assert((a + b).skip(1) =~= a.skip(1) + b);
    }
}

/// The first working directory that an output names is the one that counts, and what comes before it
/// does not matter.
pub proof fn law_first_pwd_counts(a: Seq<char>, b: Seq<char>)
    requires
        a.len() > 0 ==> a.last() == '\n',
    ensures
        remote_pwd(a) is Some ==> remote_pwd(a + b) == remote_pwd(a),
        remote_pwd(a) is None ==> remote_pwd(a + b) == remote_pwd(b),
{
    text::lemma_lines_concat(a, b);
    lemma_first_pwd_concat(text::lines(a), text::lines(b));
}

proof fn lemma_entries_concat(a: Seq<Seq<char>>, b: Seq<Seq<char>>, parent: Seq<char>)
    ensures
        entries_of_lines(a + b, parent) == entries_of_lines(a, parent) + entries_of_lines(
            b,
            parent,
        ),
    decreases b.len(),
{
    if b.len() == 0 {
        assert(a + b =~= a);
        assert(entries_of_lines(a, parent) + entries_of_lines(b, parent) =~= entries_of_lines(
            a,
            parent,
        ));
    } else {
        lemma_entries_concat(a, b.drop_last(), parent);
        assert((a + b).drop_last() =~= a + b.drop_last());
        assert((a + b).last() == b.last());
        assert(entries_of_lines(a + b, parent) =~= entries_of_lines(a, parent) + entries_of_lines(
            b,
            parent,
        ));
    }
}

/// The entries of two outputs, one behind the other, are those of the first and then those of the
/// second, if the first ends in a newline.
pub proof fn law_listing_goes_line_by_line(a: Seq<char>, b: Seq<char>, parent: Seq<char>)
    requires
        a.len() > 0 ==> a.last() == '\n',
    ensures
        listed(a + b, parent) == listed(a, parent) + listed(b, parent),
{
    text::lemma_lines_concat(a, b);
    lemma_entries_concat(text::lines(a), text::lines(b), parent);
}

/// The line that names the working directory is no entry: what follows it is listed as if it were
/// alone.
pub proof fn law_pwd_line_is_no_entry(path: Seq<char>, rest: Seq<char>, parent: Seq<char>)
    requires
        fits_a_line(path),
    ensures
        listed(pwd_line(path) + rest, parent) == listed(rest, parent),
{
    lemma_pwd_line(path);
    law_listing_goes_line_by_line(pwd_line(path), rest, parent);
    let only = seq![pwd_prefix() + path];
    assert(only.drop_last() =~= Seq::<Seq<char>>::empty());
    assert(only.last() == pwd_prefix() + path);
    assert(entries_of_lines(Seq::<Seq<char>>::empty(), parent) =~= Seq::<EntryView>::empty());
    assert(listed(pwd_line(path), parent) =~= Seq::<EntryView>::empty());
    assert(listed(pwd_line(path), parent) + listed(rest, parent) =~= listed(rest, parent));
}

/// A name that an entry can have.
pub open spec fn is_entry_name(name: Seq<char>) -> bool {
    name.len() > 0 && name != "."@ && name != ".."@
}

/// `entry` is something other than `parent` itself and its own parent, under a name in `parent`.
pub open spec fn is_in(entry: EntryView, parent: Seq<char>) -> bool {
    exists|name: Seq<char>| is_entry_name(name) && #[trigger] child_path(parent, name) == entry.path
}

/// Slashes behind a directory do not matter.
pub proof fn law_trailing_slash_does_not_matter(parent: Seq<char>, name: Seq<char>)
    ensures
        child_path(parent.push('/'), name) == child_path(parent, name),
{
    assert(parent.push('/').drop_last() =~= parent);
}

/// Different names in a directory have different paths, and what is in a directory with an absolute
/// path has an absolute path.
pub proof fn law_names_have_their_own_paths(parent: Seq<char>, a: Seq<char>, b: Seq<char>)
    ensures
        child_path(parent, a) == child_path(parent, b) ==> a == b,
        parent.len() > 0 && parent[0] == '/' ==> child_path(parent, a)[0] == '/',
{
    text::lemma_trim_end_matches(parent, '/');
    let n = text::trim_end_matches(parent, '/').len() as int + 1;
    assert(child_path(parent, a).skip(n) =~= a);
    assert(child_path(parent, b).skip(n) =~= b);
}

/// Every entry of a listing is in the directory that was listed, and there are no more entries than
/// lines.
pub proof fn law_listed_entries_are_children(output: Seq<char>, parent: Seq<char>)
    ensures
        listed(output, parent).len() <= text::lines(output).len(),
        forall|i: int|
            0 <= i < listed(output, parent).len() ==> is_in(
                #[trigger] listed(output, parent)[i],
                parent,
            ),
{
    lemma_entries_are_children(text::lines(output), parent);
}

proof fn lemma_entries_are_children(lines: Seq<Seq<char>>, parent: Seq<char>)
    ensures
        entries_of_lines(lines, parent).len() <= lines.len(),
        forall|i: int|
            0 <= i < entries_of_lines(lines, parent).len() ==> is_in(
                #[trigger] entries_of_lines(lines, parent)[i],
                parent,
            ),
    decreases lines.len(),
{
    if lines.len() > 0 {
        lemma_entries_are_children(lines.drop_last(), parent);
        let rest = entries_of_lines(lines.drop_last(), parent);
        let all = entries_of_lines(lines, parent);
        if let Some(entry) = entry_of_line(lines.last(), parent) {
            let name = row_name(text::trim(lines.last()));
            assert(is_entry_name(name) && child_path(parent, name) == entry.path);
            assert forall|i: int| 0 <= i < all.len() implies is_in(#[trigger] all[i], parent) by {
                if i < rest.len() {
                    assert(all[i] == rest[i]);
                } else {
                    assert(all[i] == entry);
                }
            }
        }
    }
}

proof fn lemma_before_join(names: Seq<Seq<char>>, tail: Seq<char>)
    requires
        text::all_words(names),
        names.len() > 0,
        forall|i: int|
            1 <= i < names.len() && (i < names.len() - 1 || tail.len() > 0) ==> #[trigger] names[i]
                != "->"@,
        tail.len() == 0 || " -> "@.is_prefix_of(tail),
    ensures
        text::before(text::join_spaced(names) + tail, " -> "@) == text::join_spaced(names),
    decreases names.len(),
{
    reveal_strlit(" -> ");
    reveal_strlit("->");
    let pattern = " -> "@;
    let word = names[0];
    assert(text::is_word(word));
    assert forall|i: int| 0 <= i < word.len() implies #[trigger] word[i] != ' ' by {
        assert(!text::is_space(word[i]));
    }
    if names.len() == 1 {
        text::lemma_before_unspaced(word, tail, pattern);
        assert(text::before(tail, pattern) =~= Seq::<char>::empty());
        assert(word + Seq::<char>::empty() =~= word);
    } else {
        let rest = names.skip(1);
        assert forall|i: int| 0 <= i < rest.len() implies text::is_word(#[trigger] rest[i]) by {
            assert(rest[i] == names[i + 1]);
        }
        assert forall|i: int|
            1 <= i < rest.len() && (i < rest.len() - 1 || tail.len() > 0) implies #[trigger] rest[i]
            != "->"@ by {
            assert(rest[i] == names[i + 1]);
        }
        lemma_before_join(rest, tail);
        text::lemma_join_ends(rest);
        let inner = text::join_spaced(rest) + tail;
        let spaced = seq![' '] + inner;
        assert(spaced.skip(1) =~= inner);
        assert(!pattern.is_prefix_of(spaced)) by {
            if pattern.is_prefix_of(spaced) {
                let front = spaced.subrange(0, 4);
                assert(front[1] == inner[0] && front[2] == inner[1] && front[3] == inner[2]);
                assert(inner[0] == '-' && inner[1] == '>' && inner[2] == ' ');
                let next = rest[0];
                assert(next == names[1]);
                assert(text::is_word(next));
                assert forall|i: int| 0 <= i < next.len() implies #[trigger] inner[i] == next[i] by {
                    assert(text::join_spaced(rest).take(next.len() as int)[i] == next[i]);
                }
                if next.len() > 2 {
                    assert(!text::is_space(next[2]));
                    assert(inner[2] == next[2]);
                } else if next.len() == 1 {
                    assert(inner[1] == (if rest.len() > 1 {
                        text::join_spaced(rest)[1]
                    } else {
                        tail[0]
                    }));
                    assert(tail.len() > 0 ==> tail[0] == tail.subrange(0, 4)[0]);
                } else {
                    assert(next =~= "->"@);
                    assert(rest.len() == 1 && tail.len() == 0);
                    assert(inner =~= next);
                }
            }
        }
        assert(text::before(spaced, pattern) =~= seq![' '] + text::join_spaced(rest));
        text::lemma_before_unspaced(word, spaced, pattern);
        assert(text::join_spaced(names) + tail =~= word + spaced);
        assert(word + (seq![' '] + text::join_spaced(rest)) =~= text::join_spaced(names));
    }
}

/// The words of a row: eight fields; then the words of the name; then, for a link, an arrow and the
/// words of the target.
pub open spec fn row_words(
    fields: Seq<Seq<char>>,
    names: Seq<Seq<char>>,
    target: Seq<Seq<char>>,
) -> Seq<Seq<char>> {
    if target.len() == 0 {
        fields + names
    } else {
        fields + (names + (seq!["->"@] + target))
    }
}

/// `fields` and `names` can be those of a row: the first field begins with the kind of the file, and
/// no word of the name but the first is an arrow.
pub open spec fn makes_row(fields: Seq<Seq<char>>, names: Seq<Seq<char>>) -> bool {
    &&& fields.len() == 8
    &&& fields[0][0] == 'd' || fields[0][0] == '-' || fields[0][0] == 'l'
    &&& forall|i: int| 1 <= i < names.len() ==> #[trigger] names[i] != "->"@
    &&& names.len() > 0
    &&& is_entry_name(text::join_spaced(names))
}

proof fn lemma_row_name(
    line: Seq<char>,
    fields: Seq<Seq<char>>,
    names: Seq<Seq<char>>,
    target: Seq<Seq<char>>,
)
    requires
        fields.len() == 8,
        names.len() > 0,
        text::words(line) == row_words(fields, names, target),
        forall|i: int|
            1 <= i < names.len() && (i < names.len() - 1 || target.len() > 0) ==> #[trigger] names[i]
                != "->"@,
    ensures
        row_name(text::trim(line)) == text::join_spaced(names),
        text::join_spaced(names).len() > 0,
{
    reveal_strlit(" -> ");
    reveal_strlit("->");
    let name = text::join_spaced(names);
    let words = row_words(fields, names, target);
    text::lemma_words_of_trim(line);
    text::lemma_words_are_words(line);
    assert forall|i: int| 0 <= i < names.len() implies text::is_word(#[trigger] names[i]) by {
        assert(words[8 + i] == names[i]);
    }
    if target.len() == 0 {
        assert(words.skip(8) =~= names);
        assert(name + Seq::<char>::empty() =~= name);
        lemma_before_join(names, Seq::empty());
    } else {
        let arrow = seq!["->"@];
        let tail = " -> "@ + text::join_spaced(target);
        assert(words.skip(8) =~= names + (arrow + target));
        text::lemma_join_concat(names, arrow + target);
        text::lemma_join_concat(arrow, target);
        assert(text::join_spaced(arrow) == "->"@);
        assert(text::join_spaced(words.skip(8)) =~= name + tail);
        assert(" -> "@ =~= tail.subrange(0, 4));
        lemma_before_join(names, tail);
    }
    text::lemma_join_ends(names);
    text::lemma_trim_same(name);
}

/// A row gives its entry back, however its words are spaced, and whether or not it ends in the target
/// of a link. Between the words of the name there is one space.
pub proof fn law_row_reads_back(
    line: Seq<char>,
    fields: Seq<Seq<char>>,
    names: Seq<Seq<char>>,
    target: Seq<Seq<char>>,
    parent: Seq<char>,
)
    requires
        text::words(line) == row_words(fields, names, target),
        makes_row(fields, names),
    ensures
        entry_of_line(line, parent) == Some(
            EntryView {
                path: child_path(parent, text::join_spaced(names)),
                is_dir: fields[0][0] == 'd',
            },
        ),
{
    text::lemma_words_of_trim(line);
    assert(text::words(line)[0] == fields[0]);
    lemma_no_chatter(text::trim(line));
    lemma_row_name(line, fields, names, target);
}

/// A listing that begins with the line of a row lists the entry of that row, and then what follows
/// the line.
pub proof fn law_listing_gives_rows_back(
    line: Seq<char>,
    fields: Seq<Seq<char>>,
    names: Seq<Seq<char>>,
    target: Seq<Seq<char>>,
    rest: Seq<char>,
    parent: Seq<char>,
)
    requires
        forall|i: int| 0 <= i < line.len() ==> #[trigger] line[i] != '\n',
        text::words(line) == row_words(fields, names, target),
        makes_row(fields, names),
    ensures
        listed(line.push('\n') + rest, parent) == seq![
            EntryView {
                path: child_path(parent, text::join_spaced(names)),
                is_dir: fields[0][0] == 'd',
            },
        ] + listed(rest, parent),
{
    let bare = text::strip_return(line);
    if bare != line {
        text::lemma_words_push_space(bare, '\r');
        assert(bare.push('\r') =~= line);
    }
    law_row_reads_back(bare, fields, names, target, parent);
    law_listing_goes_line_by_line(line.push('\n'), rest, parent);
    text::lemma_one_line(line);
    let only = seq![bare];
    assert(only.drop_last() =~= Seq::<Seq<char>>::empty());
    assert(only.last() == bare);
    assert(entries_of_lines(Seq::<Seq<char>>::empty(), parent) =~= Seq::<EntryView>::empty());
    assert(listed(line.push('\n'), parent) =~= seq![entry_of_line(bare, parent)->0]);
}

/// `sftp` never says anything of itself in a line that begins as a row does.
proof fn lemma_no_chatter(line: Seq<char>)
    requires
        line.len() > 0,
        line[0] == 'd' || line[0] == '-' || line[0] == 'l',
    ensures
        is_row(line),
{
    reveal_strlit("sftp>");
    reveal_strlit("Remote working directory:");
    reveal_strlit("Connected to ");
    reveal_strlit("Changing to:");
    assert forall|p: Seq<char>| p.len() > 0 && #[trigger] p.is_prefix_of(line) implies p[0]
        == line[0] by {
        assert(line.subrange(0, p.len() as int)[0] == line[0]);
    }
}

/// Either every path is usable, or the index of the first that is not points at it.
pub proof fn law_first_err_is_first(results: Seq<Result<String, String>>)
    ensures
        first_err(results) <= results.len(),
        first_err(results) < results.len() ==> results[first_err(results) as int] is Err,
        forall|i: int| 0 <= i < first_err(results) ==> #[trigger] results[i] is Ok,
    decreases results.len(),
{
    if results.len() > 0 && results[0] is Ok {
        law_first_err_is_first(results.skip(1));
        assert forall|i: int| 0 <= i < first_err(results) implies #[trigger] results[i] is Ok by {
            if i > 0 {
                assert(results[i] == results.skip(1)[i - 1]);
            }
        }
    }
}

/// A listing that is put into the tree keeps its order and its number: the directory then holds one
/// node for each entry, a directory where the entry is one and else a file, none of them ignored and
/// no directory marked as loaded.
pub proof fn law_update_mirrors_listing(entries: Seq<EntryView>, nodes: Seq<NodeView>, i: int)
    requires
        mirrors(entries, nodes),
        0 <= i < entries.len(),
    ensures
        nodes.len() == entries.len(),
        match nodes[i] {
            NodeView::Directory { path, ignored, loaded } => entries[i].is_dir && path
                == entries[i].path && !ignored && !loaded,
            NodeView::File { path, extension: e, ignored } => !entries[i].is_dir && path
                == entries[i].path && may_be_extension(path, e) && !ignored,
        },
{
    assert(is_node_of(entries[i], nodes[i]));
}

/// Whether every machine reads `path` in the same way: it has no backslash, and nothing at its beginning
/// that could be a drive, a share or a device.
pub open spec fn reads_the_same(path: Seq<char>) -> bool {
    &&& has_no_prefix(path)
    &&& forall|i: int| 0 <= i < path.len() ==> #[trigger] path[i] != '\\'
}

proof fn lemma_same_name_start(path: Seq<char>)
    requires
        forall|i: int| 0 <= i < path.len() ==> #[trigger] path[i] != '\\',
    ensures
        name_start(path, true) == name_start(path, false),
    decreases path.len(),
{
    if path.len() > 0 {
        assert(path.last() == path[path.len() - 1]);
        assert forall|i: int| 0 <= i < path.drop_last().len() implies #[trigger]
            path.drop_last()[i] != '\\' by {
            assert(path.drop_last()[i] == path[i]);
        }
        lemma_same_name_start(path.drop_last());
    }
}

proof fn lemma_same_file_name(path: Seq<char>)
    requires
        forall|i: int| 0 <= i < path.len() ==> #[trigger] path[i] != '\\',
    ensures
        file_name(path, true) == file_name(path, false),
    decreases path.len(),
{
    if path.len() > 0 {
        assert(path.last() == path[path.len() - 1]);
        assert forall|i: int| 0 <= i < path.drop_last().len() implies #[trigger]
            path.drop_last()[i] != '\\' by {
            assert(path.drop_last()[i] == path[i]);
        }
        if is_separator(path.last(), false) {
            lemma_same_file_name(path.drop_last());
        } else {
            lemma_same_name_start(path);
            lemma_name_start(path.drop_last(), false);
            let front = path.take(name_start(path, false) as int);
            assert forall|i: int| 0 <= i < front.len() implies #[trigger] front[i] != '\\' by {
                assert(front[i] == path[i]);
            }
            lemma_same_file_name(front);
        }
    }
}

/// Where every machine reads a path in the same way, its extension is fixed.
pub proof fn law_extension_is_fixed(path: Seq<char>, ext: Option<Seq<char>>)
    requires
        reads_the_same(path),
        may_be_extension(path, ext),
    ensures
        ext == extension(path, false),
{
    lemma_same_file_name(path);
}

/// Where every machine reads the paths of the files in the same way, the nodes of a listing are fixed.
pub proof fn law_nodes_are_fixed(entries: Seq<EntryView>, nodes: Seq<NodeView>)
    requires
        mirrors(entries, nodes),
        forall|i: int|
            0 <= i < entries.len() && !(#[trigger] entries[i]).is_dir ==> reads_the_same(
                entries[i].path,
            ),
    ensures
        nodes == nodes_of(
            entries,
            entries.map_values(|e: EntryView| extension(e.path, false)),
        ),
{
    let fixed = nodes_of(entries, entries.map_values(|e: EntryView| extension(e.path, false)));
    assert forall|i: int| 0 <= i < entries.len() implies nodes[i] == #[trigger] fixed[i] by {
        assert(is_node_of(entries[i], nodes[i]));
        if !entries[i].is_dir {
            if let NodeView::File { extension: ext, .. } = nodes[i] {
                law_extension_is_fixed(entries[i].path, ext);
            }
        }
    }
    assert(nodes =~= fixed);
}


/// What is in a directory has the whole path of that directory in front of its name, with one slash between
/// them, where the directory is written without a slash behind: cutting the path there gives both
/// back.
pub proof fn law_child_path_holds_the_whole_parent(parent: Seq<char>, name: Seq<char>)
    requires
        parent.len() == 0 || parent.last() != '/',
    ensures
        ({
            let path = child_path(parent, name);
            &&& path.len() == parent.len() + 1 + name.len()
            &&& path.take(parent.len() as int) == parent
            &&& path[parent.len() as int] == '/'
            &&& path.skip(parent.len() as int + 1) == name
        }),
{
    let path = child_path(parent, name);
    assert(path.take(parent.len() as int) =~= parent);
    assert(path.skip(parent.len() as int + 1) =~= name);
}

/// Of a directory that is written with slashes behind, the path of what is in it leaves out those slashes
/// and nothing else.
pub proof fn law_only_trailing_slashes_go(parent: Seq<char>, slashes: nat, name: Seq<char>)
    requires
        parent.len() == 0 || parent.last() != '/',
    ensures
        child_path(parent + Seq::new(slashes, |i: int| '/'), name) == parent.push('/') + name,
    decreases slashes,
{
    let all = parent + Seq::new(slashes, |i: int| '/');
    if slashes == 0 {
        assert(all =~= parent);
        assert(child_path(parent, name) =~= parent.push('/') + name);
    } else {
        let less = (slashes - 1) as nat;
        law_only_trailing_slashes_go(parent, less, name);
        let shorter = parent + Seq::new(less, |i: int| '/');
        assert(all =~= shorter.push('/'));
        law_trailing_slash_does_not_matter(shorter, name);
    }
}

/// Quoting goes character by character: a quote and a backslash get a backslash in front, and any other
/// character stays as it is, between one quote at each end.
pub proof fn law_quoting_goes_char_by_char(a: Seq<char>, x: char)
    ensures
        quoted(Seq::<char>::empty()) == seq!['"', '"'],
        x == '"' || x == '\\' ==> quoted(a.push(x)) == quoted(a).drop_last().push('\\').push(x).push(
            '"',
        ),
        x != '"' && x != '\\' ==> quoted(a.push(x)) == quoted(a).drop_last().push(x).push('"'),
{
    let none = Seq::<char>::empty();
    let b = seq!['\\', '\\'];
    let q = seq!['\\', '"'];
    assert(escaped(none) =~= none);
    assert(quoted(none) =~= seq!['"', '"']);
    lemma_escaped_concat(a, seq![x]);
    assert(a + seq![x] =~= a.push(x));
    lemma_escaped_step(seq![x]);
    assert(seq![x].skip(1) =~= none);
    assert(escaped(seq![x]) =~= escaped_char(x));
    if x == '"' || x == '\\' {
        assert(quoted(a.push(x)) =~= quoted(a).drop_last().push('\\').push(x).push('"'));
    } else {
        assert(quoted(a.push(x)) =~= quoted(a).drop_last().push(x).push('"'));
    }
}

proof fn lemma_escaped_concat(a: Seq<char>, b: Seq<char>)
    ensures
        escaped(a + b) == escaped(a) + escaped(b),
{
    let s = seq!['\\', '\\'];
    let q = seq!['\\', '"'];
    text::lemma_replace_concat(a, b, '\\', s);
    text::lemma_replace_concat(text::replace(a, '\\', s), text::replace(b, '\\', s), '"', q);
}

/// `line` names `path` as the working directory: behind the words for it stands the path, with nothing but
/// whitespace around it.
pub open spec fn names_directory(line: Seq<char>, path: Seq<char>) -> bool {
    let words = "Remote working directory: "@;
    &&& words.is_prefix_of(line)
    &&& path.len() > 0
    &&& exists|i: int, j: int| #[trigger]
        text::is_trimmed_range(line.skip(words.len() as int), i, j) && path == line.skip(
            words.len() as int,
        ).subrange(i, j)
}

proof fn lemma_trimmed_range_is_one(s: Seq<char>, i: int, j: int, k: int, l: int)
    requires
        text::is_trimmed_range(s, i, j),
        text::is_trimmed_range(s, k, l),
    ensures
        s.subrange(i, j) == s.subrange(k, l),
{
    if i == j {
        if k < l {
            if k < i {
                assert(text::is_space(s[k]));
            } else {
                assert(text::is_space(s[k]));
            }
        }
        assert(s.subrange(i, j) =~= s.subrange(k, l));
    } else if k == l {
        if i < k {
            assert(text::is_space(s[i]));
        } else {
            assert(text::is_space(s[i]));
        }
    } else {
        if i < k {
            assert(text::is_space(s[i]));
        }
        if k < i {
            assert(text::is_space(s[k]));
        }
        if j < l {
            assert(text::is_space(s[l - 1]));
        }
        if l < j {
            assert(text::is_space(s[j - 1]));
        }
    }
}

proof fn lemma_pwd_of_line(line: Seq<char>, path: Seq<char>)
    ensures
        pwd_of_line(line) == Some(path) <==> names_directory(line, path),
{
    let words = "Remote working directory: "@;
    if words.is_prefix_of(line) {
        let rest = line.skip(words.len() as int);
        text::law_trim_cuts_whitespace_only(rest);
        let (i, j) = choose|i: int, j: int| #[trigger]
            text::is_trimmed_range(rest, i, j) && text::trim(rest) == rest.subrange(i, j);
        if names_directory(line, path) {
            let (k, l) = choose|k: int, l: int| #[trigger]
                text::is_trimmed_range(rest, k, l) && path == rest.subrange(k, l);
            lemma_trimmed_range_is_one(rest, i, j, k, l);
        }
    }
}

proof fn lemma_first_pwd(lines: Seq<Seq<char>>)
    ensures
        match first_pwd(lines) {
            Some(path) => exists|i: int|
                0 <= i < lines.len() && names_directory(#[trigger] lines[i], path) && forall|
                    j: int,
                    other: Seq<char>,
                |
                    0 <= j < i ==> !#[trigger] names_directory(lines[j], other),
            None => forall|j: int, other: Seq<char>|
                0 <= j < lines.len() ==> !#[trigger] names_directory(lines[j], other),
        },
    decreases lines.len(),
{
    if lines.len() > 0 {
        if pwd_of_line(lines[0]) is Some {
            let path = pwd_of_line(lines[0])->0;
            lemma_pwd_of_line(lines[0], path);
            assert(names_directory(lines[0], path));
        } else {
            assert forall|other: Seq<char>| !#[trigger] names_directory(lines[0], other) by {
                lemma_pwd_of_line(lines[0], other);
            }
            let rest = lines.skip(1);
            lemma_first_pwd(rest);
            assert forall|j: int| 0 <= j < rest.len() implies #[trigger] rest[j] == lines[j + 1] by {
            }
            match first_pwd(lines) {
                Some(path) => {
                    let i = choose|i: int|
                        0 <= i < rest.len() && names_directory(#[trigger] rest[i], path) && forall|
                            j: int,
                            other: Seq<char>,
                        |
                            0 <= j < i ==> !#[trigger] names_directory(rest[j], other);
                    assert(names_directory(lines[i + 1], path));
                    assert forall|j: int, other: Seq<char>|
                        0 <= j < i + 1 implies !#[trigger] names_directory(lines[j], other) by {
                        if j > 0 {
                            assert(!names_directory(rest[j - 1], other));
                        }
                    }
                },
                None => {
                    assert forall|j: int, other: Seq<char>|
                        0 <= j < lines.len() implies !#[trigger] names_directory(
                        lines[j],
                        other,
                    ) by {
                        if j > 0 {
                            assert(!names_directory(rest[j - 1], other));
                        }
                    }
                },
            }
        }
    }
}

/// The working directory of an output is the one that the first line to name one names; there is none
/// exactly where no line names one.
pub proof fn law_pwd_is_that_of_the_first_line_to_name_one(output: Seq<char>)
    ensures
        ({
            let lines = text::lines(output);
            match remote_pwd(output) {
                Some(path) => exists|i: int|
                    0 <= i < lines.len() && names_directory(#[trigger] lines[i], path) && forall|
                        j: int,
                        other: Seq<char>,
                    |
                        0 <= j < i ==> !#[trigger] names_directory(lines[j], other),
                None => forall|j: int, other: Seq<char>|
                    0 <= j < lines.len() ==> !#[trigger] names_directory(lines[j], other),
            }
        }),
{
    lemma_first_pwd(text::lines(output));
}

/// The first directory is the one that the output names, and else the root of the host.
pub proof fn law_first_directory_has_a_fallback(output: Seq<char>)
    ensures
        remote_pwd(output) is Some ==> initial_root(output) == remote_pwd(output)->0,
        remote_pwd(output) is None ==> initial_root(output) == seq!['/'],
{
    reveal_strlit("/");
    assert("/"@ =~= seq!['/']);
}

/// A line of a listing is an entry exactly where it has more than eight words, the first of which begins
/// with the kind of a directory, a file or a link, and the words from the ninth on begin with a name
/// other than `.` and `..`. The name ends in front of the first arrow that has a word on either side.
pub proof fn law_row_is_an_entry_by_its_words(
    line: Seq<char>,
    fields: Seq<Seq<char>>,
    names: Seq<Seq<char>>,
    target: Seq<Seq<char>>,
    parent: Seq<char>,
)
    requires
        fields.len() == 8,
        names.len() > 0,
        text::words(line) == row_words(fields, names, target),
        forall|i: int|
            1 <= i < names.len() && (i < names.len() - 1 || target.len() > 0) ==> #[trigger] names[i]
                != "->"@,
    ensures
        ({
            let kind = fields[0][0];
            let name = text::join_spaced(names);
            let entry = entry_of_line(line, parent);
            &&& entry is Some <==> (kind == 'd' || kind == '-' || kind == 'l') && name != seq!['.']
                && name != seq!['.', '.']
            &&& entry is Some ==> entry->0.is_dir == (kind == 'd') && entry->0.path == child_path(
                parent,
                name,
            )
        }),
{
    reveal_strlit(".");
    reveal_strlit("..");
    assert("."@ =~= seq!['.']);
    assert(".."@ =~= seq!['.', '.']);
    let row = text::trim(line);
    text::lemma_words_of_trim(line);
    assert(text::words(line)[0] == fields[0]);
    let kind = fields[0][0];
    if kind == 'd' || kind == '-' || kind == 'l' {
        lemma_no_chatter(row);
        lemma_row_name(line, fields, names, target);
    }
}

/// A line with at most eight words is no entry, and neither is one that begins, behind its whitespace, with
/// anything but the kind of a directory, a file or a link.
pub proof fn law_other_lines_are_no_entries(line: Seq<char>, parent: Seq<char>)
    ensures
        text::words(line).len() <= 8 ==> entry_of_line(line, parent) is None,
        text::words(line).len() > 0 && text::words(line)[0][0] != 'd' && text::words(line)[0][0]
            != '-' && text::words(line)[0][0] != 'l' ==> entry_of_line(line, parent) is None,
{
    text::lemma_words_of_trim(line);
}

/// A listing goes line by line: a line that is an entry adds that entry in front of those of the lines
/// behind it, and any other line adds nothing.
pub proof fn law_listing_adds_a_line_in_front(line: Seq<char>, rest: Seq<char>, parent: Seq<char>)
    requires
        forall|i: int| 0 <= i < line.len() ==> #[trigger] line[i] != '\n',
    ensures
        ({
            let one = entry_of_line(line, parent);
            let all = listed(line.push('\n') + rest, parent);
            &&& one is Some ==> all.len() == 1 + listed(rest, parent).len() && all[0] == one->0
                && all.skip(1) == listed(rest, parent)
            &&& one is None ==> all == listed(rest, parent)
        }),
        line.len() > 0 ==> ({
            let one = entry_of_line(line, parent);
            &&& one is Some ==> listed(line, parent) == seq![one->0]
            &&& one is None ==> listed(line, parent).len() == 0
        }),
        listed(Seq::<char>::empty(), parent).len() == 0,
{
    let bare = text::strip_return(line);
    if bare != line {
        assert(bare.push('\r') =~= line);
        lemma_trim_drops_return(bare);
    }
    assert(entry_of_line(bare, parent) == entry_of_line(line, parent));
    law_listing_goes_line_by_line(line.push('\n'), rest, parent);
    text::lemma_one_line(line);
    lemma_entries_of_one(bare, parent);
    lemma_entries_of_one(line, parent);
    if line.len() > 0 {
        text::law_last_line_stands_as_it_is(line);
    }
    text::law_last_line_stands_as_it_is(Seq::<char>::empty());
    let all = listed(line.push('\n') + rest, parent);
    match entry_of_line(line, parent) {
        Some(entry) => {
            assert(all.skip(1) =~= listed(rest, parent));
        },
        None => {
            assert(all =~= listed(rest, parent));
        },
    }
}

proof fn lemma_entries_of_one(line: Seq<char>, parent: Seq<char>)
    ensures
        entries_of_lines(seq![line], parent) == (match entry_of_line(line, parent) {
            Some(entry) => seq![entry],
            None => Seq::empty(),
        }),
{
    let only = seq![line];
    assert(only.drop_last() =~= Seq::<Seq<char>>::empty());
    assert(only.last() == line);
    assert(entries_of_lines(Seq::<Seq<char>>::empty(), parent) =~= Seq::<EntryView>::empty());
    assert(entries_of_lines(only, parent) =~= (match entry_of_line(line, parent) {
        Some(entry) => seq![entry],
        None => Seq::empty(),
    }));
}

proof fn lemma_trim_drops_return(bare: Seq<char>)
    ensures
        text::trim(bare.push('\r')) == text::trim(bare),
{
    let line = bare.push('\r');
    text::law_trim_cuts_whitespace_only(bare);
    text::law_trim_cuts_whitespace_only(line);
    let (i, j) = choose|i: int, j: int| #[trigger]
        text::is_trimmed_range(bare, i, j) && text::trim(bare) == bare.subrange(i, j);
    let (k, l) = choose|k: int, l: int| #[trigger]
        text::is_trimmed_range(line, k, l) && text::trim(line) == line.subrange(k, l);
    assert(text::is_trimmed_range(line, i, j)) by {
        assert forall|n: int| 0 <= n < i implies text::is_space(#[trigger] line[n]) by {
            assert(line[n] == bare[n]);
        }
        assert forall|n: int| j <= n < line.len() implies text::is_space(#[trigger] line[n]) by {
            if n < bare.len() {
                assert(line[n] == bare[n]);
            }
        }
    }
    lemma_trimmed_range_is_one(line, i, j, k, l);
    assert(line.subrange(i, j) =~= bare.subrange(i, j));
}

/// Standardized entries are as many as before, each with its own new path and the kind that it had.
pub proof fn law_standardized_entries_keep_their_kind(
    entries: Seq<EntryView>,
    paths: Seq<Result<String, String>>,
    i: int,
)
    requires
        0 <= i < entries.len(),
    ensures
        with_paths(entries, paths).len() == entries.len(),
        with_paths(entries, paths)[i].is_dir == entries[i].is_dir,
        paths[i] matches Ok(path) ==> with_paths(entries, paths)[i].path == path@,
{
}

/// Every entry and every node is seen, in its place and with all its fields.
pub proof fn law_entries_and_nodes_are_seen_whole(
    entries: Seq<SftpEntry>,
    nodes: Seq<RepoNodeMetadata>,
    exts: Seq<Option<String>>,
    i: int,
)
    ensures
        entry_views(entries).len() == entries.len(),
        0 <= i < entries.len() ==> entry_views(entries)[i].path == entries[i].path@
            && entry_views(entries)[i].is_dir == entries[i].is_dir,
        node_views(nodes).len() == nodes.len(),
        0 <= i < nodes.len() ==> match (nodes[i], node_views(nodes)[i]) {
            (
                RepoNodeMetadata::Directory(d),
                NodeView::Directory { path, ignored, loaded },
            ) => path == d.path@ && ignored == d.ignored && loaded == d.loaded,
            (
                RepoNodeMetadata::File(f),
                NodeView::File { path, extension: ext, ignored },
            ) => path == f.path@ && ignored == f.ignored && (ext is Some <==> f.extension is Some)
                && (ext is Some ==> ext->0 == f.extension->0@),
            _ => false,
        },
        ext_views(exts).len() == exts.len(),
        0 <= i < exts.len() ==> (ext_views(exts)[i] is Some <==> exts[i] is Some) && (exts[i]
            is Some ==> ext_views(exts)[i]->0 == exts[i]->0@),
{
}

/// An entry becomes a node with its own path: a directory that is neither ignored nor loaded, or a file
/// with the extension that was given.
pub proof fn law_entry_becomes_its_node(
    entries: Seq<EntryView>,
    exts: Seq<Option<Seq<char>>>,
    i: int,
)
    requires
        0 <= i < entries.len(),
    ensures
        nodes_of(entries, exts).len() == entries.len(),
        entries[i].is_dir ==> (nodes_of(entries, exts)[i] matches NodeView::Directory {
            path,
            ignored,
            loaded,
        } && path == entries[i].path && !ignored && !loaded),
        !entries[i].is_dir ==> (nodes_of(entries, exts)[i] matches NodeView::File {
            path,
            extension: ext,
            ignored,
        } && path == entries[i].path && ext == exts[i] && !ignored),
{
}

/// An update touches one directory, replaces what is in it, and removes nothing.
pub proof fn law_update_replaces_one_directory(
    update: RepoMetadataUpdate,
    repo_root: Seq<char>,
    dir_path: Seq<char>,
    nodes: Seq<NodeView>,
)
    requires
        puts(update, repo_root, dir_path, nodes),
    ensures
        update.repo_path@ == repo_root,
        update.remove_entries@.len() == 0,
        update.update_entries@.len() == 1,
        update.update_entries@[0].parent_path_to_replace@ == dir_path,
        node_views(update.update_entries@[0].subtree_metadata@) == nodes,
        nodes_put(update) == nodes,
{
}

/// An error is told in words for what failed, with all that is known of it behind them.
pub proof fn law_errors_give_their_cause_back(error: SftpError)
    ensures
        match error {
            SftpError::ListFailed(stderr) => text::splits(
                error_text(error),
                "sftp ls failed: "@,
                stderr@,
            ),
            SftpError::InitialListFailed(stderr) => text::splits(
                error_text(error),
                "sftp initial list failed: "@,
                stderr@,
            ),
            SftpError::InvalidRootPath { path, cause } => text::splits(
                error_text(error),
                "invalid remote root path: "@ + path@,
                seq![':', ' '] + cause@,
            ),
            SftpError::InvalidChildPath { path, cause } => text::splits(
                error_text(error),
                "invalid remote child path: "@ + path@,
                seq![':', ' '] + cause@,
            ),
        },
{
    reveal_strlit(": ");
    assert(": "@ =~= seq![':', ' ']);
    match error {
        SftpError::ListFailed(stderr) => {
            text::lemma_splits("sftp ls failed: "@, stderr@);
        },
        SftpError::InitialListFailed(stderr) => {
            text::lemma_splits("sftp initial list failed: "@, stderr@);
        },
        SftpError::InvalidRootPath { path, cause } => {
            let front = "invalid remote root path: "@ + path@;
            text::lemma_splits(front, seq![':', ' '] + cause@);
            assert(error_text(error) =~= front + (seq![':', ' '] + cause@));
        },
        SftpError::InvalidChildPath { path, cause } => {
            let front = "invalid remote child path: "@ + path@;
            text::lemma_splits(front, seq![':', ' '] + cause@);
            assert(error_text(error) =~= front + (seq![':', ' '] + cause@));
        },
    }
}

/// A run of characters that neither a slash nor a backslash parts.
pub open spec fn is_one_component(s: Seq<char>) -> bool {
    forall|i: int| 0 <= i < s.len() ==> #[trigger] s[i] != '/' && s[i] != '\\'
}

proof fn lemma_name_start_behind(front: Seq<char>, name: Seq<char>, backslash: bool)
    requires
        is_one_component(name),
    ensures
        name_start(front.push('/') + name, backslash) == front.len() + 1,
    decreases name.len(),
{
    let path = front.push('/') + name;
    if name.len() == 0 {
        assert(path =~= front.push('/'));
    } else {
        assert(path.last() == name[name.len() - 1]);
        let less = name.drop_last();
        assert forall|i: int| 0 <= i < less.len() implies #[trigger] less[i] != '/' && less[i]
            != '\\' by {
            assert(less[i] == name[i]);
        }
        lemma_name_start_behind(front, less, backslash);
        assert(path.drop_last() =~= front.push('/') + less);
    }
}

/// The name of a file in a directory is what follows the last slash, on every machine.
pub proof fn law_file_name_follows_the_last_slash(
    front: Seq<char>,
    name: Seq<char>,
    backslash: bool,
)
    requires
        is_one_component(name),
        name.len() > 0,
        name != seq!['.'],
        name != seq!['.', '.'],
    ensures
        file_name(front.push('/') + name, backslash) == Some(name),
{
    let path = front.push('/') + name;
    lemma_name_start_behind(front, name, backslash);
    assert(path.last() == name[name.len() - 1]);
    assert(path.skip(front.len() as int + 1) =~= name);
}

proof fn lemma_after_last_dot(stem: Seq<char>, ext: Seq<char>)
    requires
        forall|i: int| 0 <= i < ext.len() ==> #[trigger] ext[i] != '.',
    ensures
        after_last(stem.push('.') + ext, '.') == stem.len() + 1,
    decreases ext.len(),
{
    let name = stem.push('.') + ext;
    if ext.len() == 0 {
        assert(name =~= stem.push('.'));
    } else {
        assert(name.last() == ext[ext.len() - 1]);
        let less = ext.drop_last();
        assert forall|i: int| 0 <= i < less.len() implies #[trigger] less[i] != '.' by {
            assert(less[i] == ext[i]);
        }
        lemma_after_last_dot(stem, less);
        assert(name.drop_last() =~= stem.push('.') + less);
    }
}

proof fn lemma_no_dot(name: Seq<char>)
    requires
        forall|i: int| 0 <= i < name.len() ==> #[trigger] name[i] != '.',
    ensures
        after_last(name, '.') == 0,
    decreases name.len(),
{
    if name.len() > 0 {
        assert(name.last() == name[name.len() - 1]);
        let less = name.drop_last();
        assert forall|i: int| 0 <= i < less.len() implies #[trigger] less[i] != '.' by {
            assert(less[i] == name[i]);
        }
        lemma_no_dot(less);
    }
}

/// A file in a directory has what follows the last dot of its name for an extension, as it is written, on
/// every machine; a name whose only dot comes first, or that has none, has no extension.
pub proof fn law_extension_follows_the_last_dot(
    front: Seq<char>,
    stem: Seq<char>,
    ext: Seq<char>,
    backslash: bool,
)
    requires
        is_one_component(stem),
        is_one_component(ext),
        forall|i: int| 0 <= i < ext.len() ==> #[trigger] ext[i] != '.',
    ensures
        stem.len() > 0 && stem.push('.') + ext != seq!['.', '.'] ==> extension(
            front.push('/') + (stem.push('.') + ext),
            backslash,
        ) == Some(ext),
        stem.len() == 0 && ext.len() > 0 ==> extension(
            front.push('/') + (stem.push('.') + ext),
            backslash,
        ) is None,
        ext.len() > 0 ==> extension(front.push('/') + ext, backslash) is None,
{
    let name = stem.push('.') + ext;
    assert forall|i: int| 0 <= i < name.len() implies #[trigger] name[i] != '/' && name[i]
        != '\\' by {
        if i < stem.len() {
            assert(name[i] == stem[i]);
        } else if i > stem.len() {
            assert(name[i] == ext[i - stem.len() - 1]);
        }
    }
    lemma_after_last_dot(stem, ext);
    let dot = seq!['.'];
    let dots = seq!['.', '.'];
    assert(dot.len() == 1 && dots.len() == 2 && dots[1] == '.' && dot[0] == '.');
    if stem.len() > 0 || ext.len() > 0 {
        assert(name.len() > 1);
        if stem.len() == 0 {
            assert(name[1] == ext[0]);
        }
        if name != dots {
            law_file_name_follows_the_last_slash(front, name, backslash);
            assert(name.skip(stem.len() as int + 1) =~= ext);
        }
    }
    if ext.len() > 0 {
        assert(ext[0] != '.');
        lemma_no_dot(ext);
        law_file_name_follows_the_last_slash(front, ext, backslash);
    }
}

/// What a machine may take for the extension of a file in a directory with an absolute path is what
/// follows the last dot of its name.
pub proof fn law_extension_in_a_directory_is_fixed(
    front: Seq<char>,
    stem: Seq<char>,
    ext: Seq<char>,
    found: Option<Seq<char>>,
)
    requires
        front.len() > 1,
        front[0] == '/' && front[1] != '/' && front[1] != '\\',
        is_one_component(stem),
        is_one_component(ext),
        forall|i: int| 0 <= i < ext.len() ==> #[trigger] ext[i] != '.',
        stem.len() > 0,
        stem.push('.') + ext != seq!['.', '.'],
        may_be_extension(front.push('/') + (stem.push('.') + ext), found),
    ensures
        found == Some(ext),
{
    law_extension_follows_the_last_dot(front, stem, ext, true);
    law_extension_follows_the_last_dot(front, stem, ext, false);
    let path = front.push('/') + (stem.push('.') + ext);
    assert(path[0] == front[0] && path[1] == front[1]);
}

} // verus!
