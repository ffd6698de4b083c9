//! What a listing is asked to do: the options the walk and the
//! renderings read, as plain values.

use vstd::prelude::*;

verus! {

/// Which rendering is produced.
#[derive(Clone, Copy, PartialEq, Eq, Structural)]
pub enum OutputFormat {
    Text,
    Json,
    Html,
}

/// The key entries are sorted by (ties broken by name, except for
/// `Name` and `Unsorted`).
#[derive(Clone, Copy, PartialEq, Eq, Structural)]
pub enum SortKey {
    Name,
    /// Largest first.
    Size,
    Mtime,
    Ctime,
    /// Directory order, untouched.
    Unsorted,
}

/// Whether directories are grouped before or after the other entries.
#[derive(Clone, Copy, PartialEq, Eq, Structural)]
pub enum TopSort {
    Mixed,
    DirsFirst,
    FilesFirst,
}

pub struct Options {
    /// -P: list only the files that match one of these.
    pub patterns: Vec<Vec<u8>>,
    /// -I: leave out the entries that match one of these.
    pub ipatterns: Vec<Vec<u8>>,
    pub ignore_case: bool,
    pub matchdirs: bool,
    pub prune: bool,
    pub du: bool,
    /// -L: the deepest level listed.
    pub level: Option<usize>,
    /// --filelimit: directories with more entries are not opened.
    pub file_limit: Option<i64>,
    pub all_files: bool,
    pub dirs_only: bool,
    pub follow_links: bool,
    pub xdev: bool,
    /// -R: a listing file for each directory at the deepest level.
    pub rerun: bool,
    pub full_path: bool,
    pub sort: SortKey,
    pub top: TopSort,
    pub reverse: bool,
    pub output: OutputFormat,
    pub noindent: bool,
    /// -N: names printed as they are.
    pub no_escape: bool,
    /// -Q: names in double quotes.
    pub quote: bool,
    /// -q: non-printable bytes as `?`.
    pub qmark: bool,
    pub no_report: bool,
    pub show_inode: bool,
    pub show_device: bool,
    pub show_size: bool,
    /// -p: the permission bits.
    pub show_perms: bool,
    /// -H: the base of every link.
    pub host: Option<Vec<u8>>,
    /// --nolinks: no href on the HTML anchors.
    pub nolinks: bool,
    /// -H given as `-base`: links relative to the root argument.
    pub htmloffset: bool,
    /// -C: HTML anchors carry a class.
    pub force_color: bool,
}

/// The options of a run with no flag given.
pub open spec fn default_options(o: Options) -> bool {
    &&& o.patterns@.len() == 0
    &&& o.ipatterns@.len() == 0
    &&& !o.ignore_case && !o.matchdirs && !o.prune && !o.du
    &&& o.level is None && o.file_limit is None
    &&& !o.all_files && !o.dirs_only && !o.follow_links && !o.xdev && !o.rerun && !o.full_path
    &&& o.sort == SortKey::Name && o.top == TopSort::Mixed && !o.reverse
    &&& o.output == OutputFormat::Text
    &&& !o.noindent && !o.no_escape && !o.quote && !o.qmark && !o.no_report
    &&& !o.show_inode && !o.show_device && !o.show_size && !o.show_perms
    &&& o.host is None && !o.nolinks && !o.htmloffset && !o.force_color
}

impl Default for Options {
    fn default() -> (o: Options)
        ensures
            default_options(o),
    {
        Options {
            patterns: Vec::new(),
            ipatterns: Vec::new(),
            ignore_case: false,
            matchdirs: false,
            prune: false,
            du: false,
            level: None,
            file_limit: None,
            all_files: false,
            dirs_only: false,
            follow_links: false,
            xdev: false,
            rerun: false,
            full_path: false,
            sort: SortKey::Name,
            top: TopSort::Mixed,
            reverse: false,
            output: OutputFormat::Text,
            noindent: false,
            no_escape: false,
            quote: false,
            qmark: false,
            no_report: false,
            show_inode: false,
            show_device: false,
            show_size: false,
            show_perms: false,
            host: None,
            nolinks: false,
            htmloffset: false,
            force_color: false,
        }
    }
}

} // verus!
