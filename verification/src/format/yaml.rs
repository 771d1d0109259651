//! The YAML embedding format: its data shapes, the builder that renders
//! a document from source files grouped by directory, and the parser
//! that reads embedded documents back.

use vstd::prelude::*;
use crate::text::{has_prefix, lex_lt, lemma_skip_skip};
use crate::format::{line_len, strip_cr};

verus! {

pub const ESSTRA_DATA_FORMAT_VERSION: &'static str = "0.1.0";

/// An embedded document: a header and the source files, grouped by
/// directory.
#[derive(Debug)]
pub struct EsstraFormat {
    pub headers: EsstraHeader,
    pub source_files: Vec<EsstraSourceDir>,
}

/// The header of an embedded document.
#[derive(Debug)]
pub struct EsstraHeader {
    pub tool_name: String,
    pub tool_version: String,
    pub data_format_version: String,
    pub input_file_name: String,
}

/// One source directory and the files recorded in it.
#[derive(Debug)]
pub struct EsstraSourceDir {
    pub directory: String,
    pub files: Vec<EsstraSourceFile>,
}

/// One source file with its content digest.
#[allow(non_snake_case)]
#[derive(Debug)]
pub struct EsstraSourceFile {
    pub file: String,
    pub SHA1: String,
}

#[verifier::ext_equal]
pub struct FileView {
    pub file: Seq<char>,
    pub sha1: Seq<char>,
}

#[verifier::ext_equal]
pub struct DirView {
    pub directory: Seq<char>,
    pub files: Seq<FileView>,
}

#[verifier::ext_equal]
pub struct HeaderView {
    pub tool_name: Seq<char>,
    pub tool_version: Seq<char>,
    pub data_format_version: Seq<char>,
    pub input_file_name: Seq<char>,
}

#[verifier::ext_equal]
pub struct YamlDocView {
    pub headers: HeaderView,
    pub source_files: Seq<DirView>,
}

impl View for EsstraSourceFile {
    type V = FileView;

    open spec fn view(&self) -> FileView {
        FileView { file: self.file@, sha1: self.SHA1@ }
    }
}

impl View for EsstraSourceDir {
    type V = DirView;

    open spec fn view(&self) -> DirView {
        DirView {
            directory: self.directory@,
            files: Seq::new(self.files@.len(), |i: int| self.files@[i]@),
        }
    }
}

impl View for EsstraHeader {
    type V = HeaderView;

    open spec fn view(&self) -> HeaderView {
        HeaderView {
            tool_name: self.tool_name@,
            tool_version: self.tool_version@,
            data_format_version: self.data_format_version@,
            input_file_name: self.input_file_name@,
        }
    }
}

impl View for EsstraFormat {
    type V = YamlDocView;

    open spec fn view(&self) -> YamlDocView {
        YamlDocView {
            headers: self.headers@,
            source_files: Seq::new(self.source_files@.len(), |i: int| self.source_files@[i]@),
        }
    }
}

/// One source file handed to the builder: its path and, when the file
/// could be read and hashed, its content digest.
#[derive(Debug)]
pub struct SourceInput {
    pub path: String,
    pub sha1: Option<String>,
}

#[verifier::ext_equal]
pub struct SourceInputView {
    pub path: Seq<char>,
    pub sha1: Option<Seq<char>>,
}

impl View for SourceInput {
    type V = SourceInputView;

    open spec fn view(&self) -> SourceInputView {
        SourceInputView {
            path: self.path@,
            sha1: match self.sha1 {
                Some(h) => Some(h@),
                None => None,
            },
        }
    }
}

/// One file entry of a directory group, its digest possibly absent.
#[derive(Debug)]
pub struct SourceFileEntry {
    pub file: String,
    pub sha1: Option<String>,
}

/// One directory group of the builder: a directory and its sorted file
/// entries.
#[derive(Debug)]
pub struct SourceDirGroup {
    pub directory: String,
    pub files: Vec<SourceFileEntry>,
}

#[verifier::ext_equal]
pub struct FileEntryView {
    pub file: Seq<char>,
    pub sha1: Option<Seq<char>>,
}

#[verifier::ext_equal]
pub struct DirGroupView {
    pub directory: Seq<char>,
    pub files: Seq<FileEntryView>,
}

impl View for SourceFileEntry {
    type V = FileEntryView;

    open spec fn view(&self) -> FileEntryView {
        FileEntryView {
            file: self.file@,
            sha1: match self.sha1 {
                Some(h) => Some(h@),
                None => None,
            },
        }
    }
}

impl View for SourceDirGroup {
    type V = DirGroupView;

    open spec fn view(&self) -> DirGroupView {
        DirGroupView {
            directory: self.directory@,
            files: Seq::new(self.files@.len(), |i: int| self.files@[i]@),
        }
    }
}

pub open spec fn inputs_view(s: Seq<SourceInput>) -> Seq<SourceInputView> {
    Seq::new(s.len(), |i: int| s[i]@)
}

pub open spec fn groups_view(s: Seq<SourceDirGroup>) -> Seq<DirGroupView> {
    Seq::new(s.len(), |i: int| s[i]@)
}

/// The directory part of a path: everything before the last slash (a
/// lone leading slash stands for the root directory, and a path without
/// a slash has the empty directory).
pub open spec fn path_directory(p: Seq<char>) -> Seq<char> {
    let k = crate::format::deps_file::dir_prefix_len(p);
    if k == 0 {
        Seq::empty()
    } else if k == 1 {
        p.take(1)
    } else {
        p.take(k - 1)
    }
}

/// The file-name part of a path: everything after the last slash.
pub open spec fn path_file_name(p: Seq<char>) -> Seq<char> {
    p.skip(crate::format::deps_file::dir_prefix_len(p))
}

/// Insert a file entry into a sorted entry list: ordered by file name,
/// and an entry whose name is already there leaves the list unchanged.
pub open spec fn insert_file(fs: Seq<FileEntryView>, f: FileEntryView) -> Seq<FileEntryView>
    decreases fs.len(),
{
    if fs.len() == 0 {
        seq![f]
    } else if f.file == fs[0].file {
        fs
    } else if lex_lt(f.file, fs[0].file) {
        seq![f] + fs
    } else {
        seq![fs[0]] + insert_file(fs.drop_first(), f)
    }
}

/// Insert one file under its directory into a sorted group list.
pub open spec fn insert_grouped(gs: Seq<DirGroupView>, dir: Seq<char>, f: FileEntryView) -> Seq<
    DirGroupView,
>
    decreases gs.len(),
{
    if gs.len() == 0 {
        seq![DirGroupView { directory: dir, files: seq![f] }]
    } else if dir == gs[0].directory {
        seq![DirGroupView { directory: dir, files: insert_file(gs[0].files, f) }]
            + gs.drop_first()
    } else if lex_lt(dir, gs[0].directory) {
        seq![DirGroupView { directory: dir, files: seq![f] }] + gs
    } else {
        seq![gs[0]] + insert_grouped(gs.drop_first(), dir, f)
    }
}

/// The directory grouping of a list of inputs: each path split into
/// directory and file name and inserted in turn, so that directories and
/// the files within each are sorted lexicographically and duplicate file
/// names within one directory collapse onto their first entry.
pub open spec fn spec_group(inputs: Seq<SourceInputView>) -> Seq<DirGroupView>
    decreases inputs.len(),
{
    if inputs.len() == 0 {
        Seq::empty()
    } else {
        let last = inputs.last();
        insert_grouped(
            spec_group(inputs.drop_last()),
            path_directory(last.path),
            FileEntryView { file: path_file_name(last.path), sha1: last.sha1 },
        )
    }
}


pub open spec fn file_entries_view(s: Seq<SourceFileEntry>) -> Seq<FileEntryView> {
    Seq::new(s.len(), |i: int| s[i]@)
}

/// Where a scan for the insertion point stops, the recursive insertion
/// lands.
proof fn lemma_insert_file_at(fs: Seq<FileEntryView>, f: FileEntryView, j: int)
    requires
        0 <= j <= fs.len(),
        forall|m: int| 0 <= m < j ==> lex_lt(#[trigger] fs[m].file, f.file),
        j < fs.len() ==> !lex_lt(fs[j].file, f.file),
    ensures
        insert_file(fs, f) == if j < fs.len() && fs[j].file == f.file {
            fs
        } else {
            fs.take(j).push(f) + fs.skip(j)
        },
    decreases fs.len(),
{
    if fs.len() == 0 {
        assert(fs.take(0).push(f) + fs.skip(0) =~= seq![f]);
    } else if j == 0 {
        if fs[0].file == f.file {
        } else {
            crate::text::lemma_lex_lt_total(f.file, fs[0].file);
            assert(lex_lt(f.file, fs[0].file));
            assert(fs.take(0).push(f) + fs.skip(0) =~= seq![f] + fs);
        }
    } else {
        crate::text::lemma_lex_lt_irrefl(f.file);
        crate::text::lemma_lex_lt_asym(fs[0].file, f.file);
        let tail = fs.drop_first();
        assert forall|m: int| 0 <= m < j - 1 implies lex_lt(#[trigger] tail[m].file, f.file) by {
            assert(tail[m] == fs[m + 1]);
        }
        assert(j - 1 < tail.len() ==> tail[j - 1] == fs[j]);
        lemma_insert_file_at(tail, f, j - 1);
        if j < fs.len() && fs[j].file == f.file {
            assert(insert_file(fs, f) =~= fs);
        } else {
            assert(seq![fs[0]] + (tail.take(j - 1).push(f) + tail.skip(j - 1)) =~= fs.take(
                j,
            ).push(f) + fs.skip(j));
        }
    }
}

proof fn lemma_insert_grouped_at(gs: Seq<DirGroupView>, dir: Seq<char>, f: FileEntryView, j: int)
    requires
        0 <= j <= gs.len(),
        forall|m: int| 0 <= m < j ==> lex_lt(#[trigger] gs[m].directory, dir),
        j < gs.len() ==> !lex_lt(gs[j].directory, dir),
    ensures
        insert_grouped(gs, dir, f) == if j < gs.len() && gs[j].directory == dir {
            gs.update(j, (DirGroupView { directory: dir, files: insert_file(gs[j].files, f) }))
        } else {
            gs.take(j).push((DirGroupView { directory: dir, files: seq![f] })) + gs.skip(j)
        },
    decreases gs.len(),
{
    if gs.len() == 0 {
        assert(gs.take(0).push((DirGroupView { directory: dir, files: seq![f] })) + gs.skip(0)
            =~= seq![DirGroupView { directory: dir, files: seq![f] }]);
    } else if j == 0 {
        if gs[0].directory == dir {
            assert(seq![DirGroupView { directory: dir, files: insert_file(gs[0].files, f) }]
                + gs.drop_first() =~= gs.update(
                0,
                (DirGroupView { directory: dir, files: insert_file(gs[0].files, f) }),
            ));
        } else {
            crate::text::lemma_lex_lt_total(dir, gs[0].directory);
            assert(lex_lt(dir, gs[0].directory));
            assert(gs.take(0).push((DirGroupView { directory: dir, files: seq![f] })) + gs.skip(0)
                =~= seq![DirGroupView { directory: dir, files: seq![f] }] + gs);
        }
    } else {
        crate::text::lemma_lex_lt_irrefl(dir);
        crate::text::lemma_lex_lt_asym(gs[0].directory, dir);
        let tail = gs.drop_first();
        assert forall|m: int| 0 <= m < j - 1 implies lex_lt(
            #[trigger] tail[m].directory,
            dir,
        ) by {
            assert(tail[m] == gs[m + 1]);
        }
        assert(j - 1 < tail.len() ==> tail[j - 1] == gs[j]);
        lemma_insert_grouped_at(tail, dir, f, j - 1);
        if j < gs.len() && gs[j].directory == dir {
            assert(seq![gs[0]] + tail.update(
                j - 1,
                (DirGroupView { directory: dir, files: insert_file(gs[j].files, f) }),
            ) =~= gs.update(
                j,
                (DirGroupView { directory: dir, files: insert_file(gs[j].files, f) }),
            ));
        } else {
            assert(seq![gs[0]] + (tail.take(j - 1).push(
                (DirGroupView { directory: dir, files: seq![f] }),
            ) + tail.skip(j - 1)) =~= gs.take(j).push(
                (DirGroupView { directory: dir, files: seq![f] }),
            ) + gs.skip(j));
        }
    }
}

/// Insert one entry into a sorted entry list, keeping it sorted and
/// dropping the entry if its file name is already present.
fn insert_file_entry(files: &mut Vec<SourceFileEntry>, f: SourceFileEntry)
    ensures
        file_entries_view(final(files)@) == insert_file(file_entries_view(old(files)@), f@),
{
    let ghost fsv = file_entries_view(old(files)@);
    let j = find_file_pos(files, f.file.as_str());
    proof {
        lemma_insert_file_at(fsv, f@, j as int);
    }
    if j < files.len() && crate::text::str_eq(files[j].file.as_str(), f.file.as_str()) {
        proof {
            assert(fsv[j as int].file == f@.file);
            assert(file_entries_view(files@) =~= fsv);
        }
        return ;
    }
    proof {
        assert(!(j < fsv.len() && fsv[j as int].file == f@.file));
    }
    files.insert(j, f);
    proof {
        assert(file_entries_view(files@) =~= fsv.take(j as int).push(f@) + fsv.skip(j as int));
    }
}

/// Insert one file under its directory into a sorted group list.
fn insert_into_groups(groups: &mut Vec<SourceDirGroup>, dir: String, f: SourceFileEntry)
    ensures
        groups_view(final(groups)@) == insert_grouped(groups_view(old(groups)@), dir@, f@),
{
    let ghost gv = groups_view(old(groups)@);
    let j = find_group_pos(groups, dir.as_str());
    proof {
        lemma_insert_grouped_at(gv, dir@, f@, j as int);
    }
    if j < groups.len() && crate::text::str_eq(groups[j].directory.as_str(), dir.as_str()) {
        let mut g = groups.remove(j);
        let ghost gfiles = file_entries_view(g.files@);
        insert_file_entry(&mut g.files, f);
        proof {
            assert(gfiles =~= gv[j as int].files);
        }
        groups.insert(j, g);
        proof {
            assert(groups_view(groups@) =~= gv.update(
                j as int,
                (DirGroupView { directory: dir@, files: insert_file(gv[j as int].files, f@) }),
            ));
        }
    } else {
        proof {
            assert(!(j < gv.len() && gv[j as int].directory == dir@));
        }
        let mut fs: Vec<SourceFileEntry> = Vec::new();
        fs.push(f);
        let g = SourceDirGroup { directory: dir, files: fs };
        proof {
            assert(g@.files =~= seq![f@]);
        }
        groups.insert(j, g);
        proof {
            assert(groups_view(groups@) =~= gv.take(j as int).push(
                (DirGroupView { directory: g@.directory, files: seq![f@] }),
            ) + gv.skip(j as int));
        }
    }
}

/// Group the given source files by their parent directory, directories
/// and the file names within each sorted lexicographically.
pub fn group_source_files(files: &Vec<SourceInput>) -> (r: Vec<SourceDirGroup>)
    ensures
        groups_view(r@) == spec_group(inputs_view(files@)),
{
    let mut groups: Vec<SourceDirGroup> = Vec::new();
    proof {
        assert(inputs_view(files@).take(0) =~= Seq::<SourceInputView>::empty());
        assert(groups_view(groups@) =~= spec_group(inputs_view(files@).take(0)));
    }
    let n = files.len();
    let mut k: usize = 0;
    while k < n
        invariant
            n == files@.len(),
            k <= n,
            groups_view(groups@) == spec_group(inputs_view(files@).take(k as int)),
        decreases n - k,
    {
        let path = files[k].path.as_str();
        let plen = path.unicode_len();
        let kpos = crate::format::deps_file::dir_split_pos(path);
        let dir = if kpos == 0 {
            String::new()
        } else if kpos == 1 {
            String::from_str(path.substring_char(0, 1))
        } else {
            String::from_str(path.substring_char(0, kpos - 1))
        };
        let fname = String::from_str(path.substring_char(kpos, plen));
        let sha = match &files[k].sha1 {
            Some(h) => Some(h.clone()),
            None => None,
        };
        let entry = SourceFileEntry { file: fname, sha1: sha };
        proof {
            assert(dir@ =~= path_directory(files@[k as int].path@));
            assert(fname@ =~= path_file_name(files@[k as int].path@));
            assert(entry@ =~= (FileEntryView {
                file: path_file_name(files@[k as int].path@),
                sha1: files@[k as int]@.sha1,
            }));
        }
        insert_into_groups(&mut groups, dir, entry);
        proof {
            let iv = inputs_view(files@);
            assert(iv.take(k + 1).drop_last() =~= iv.take(k as int));
            assert(iv.take(k + 1).last() == files@[k as int]@);
            assert(groups_view(groups@) =~= spec_group(iv.take(k + 1)));
        }
        k += 1;
    }
    proof {
        assert(inputs_view(files@).take(n as int) =~= inputs_view(files@));
    }
    groups
}


/// Position of the first entry whose file name is not below `name`.
fn find_file_pos(files: &Vec<SourceFileEntry>, name: &str) -> (j: usize)
    ensures
        j <= files@.len(),
        forall|m: int| 0 <= m < j ==> lex_lt(
            #[trigger] file_entries_view(files@)[m].file,
            name@,
        ),
        j < files@.len() ==> !lex_lt(file_entries_view(files@)[j as int].file, name@),
{
    let n = files.len();
    let mut j: usize = 0;
    while j < n
        invariant
            n == files@.len(),
            j <= n,
            forall|m: int| 0 <= m < j ==> lex_lt(
                #[trigger] file_entries_view(files@)[m].file,
                name@,
            ),
        decreases n - j,
    {
        proof {
            assert(file_entries_view(files@)[j as int] == files@[j as int]@);
        }
        if !crate::text::str_lex_lt(files[j].file.as_str(), name) {
            return j;
        }
        j += 1;
    }
    j
}

/// Position of the first group whose directory is not below `dir`.
fn find_group_pos(groups: &Vec<SourceDirGroup>, dir: &str) -> (j: usize)
    ensures
        j <= groups@.len(),
        forall|m: int| 0 <= m < j ==> lex_lt(#[trigger] groups_view(groups@)[m].directory, dir@),
        j < groups@.len() ==> !lex_lt(groups_view(groups@)[j as int].directory, dir@),
{
    let n = groups.len();
    let mut j: usize = 0;
    while j < n
        invariant
            n == groups@.len(),
            j <= n,
            forall|m: int| 0 <= m < j ==> lex_lt(
                #[trigger] groups_view(groups@)[m].directory,
                dir@,
            ),
        decreases n - j,
    {
        proof {
            assert(groups_view(groups@)[j as int] == groups@[j as int]@);
        }
        if !crate::text::str_lex_lt(groups[j].directory.as_str(), dir) {
            return j;
        }
        j += 1;
    }
    j
}


/// The rendered lines of one file entry.
pub open spec fn spec_yaml_file_text(f: FileEntryView) -> Seq<char> {
    "\n  - File: "@ + f.file + (match f.sha1 {
        Some(h) => "\n    SHA1: "@ + h,
        None => Seq::empty(),
    })
}

pub open spec fn spec_yaml_files_text(fs: Seq<FileEntryView>) -> Seq<char>
    decreases fs.len(),
{
    if fs.len() == 0 {
        Seq::empty()
    } else {
        spec_yaml_file_text(fs[0]) + spec_yaml_files_text(fs.drop_first())
    }
}

/// The rendered lines of one directory group.
pub open spec fn spec_yaml_dir_text(g: DirGroupView) -> Seq<char> {
    "\n- Directory: "@ + g.directory + "\n  Files:"@ + spec_yaml_files_text(g.files)
}

pub open spec fn spec_yaml_dirs_text(gs: Seq<DirGroupView>) -> Seq<char>
    decreases gs.len(),
{
    if gs.len() == 0 {
        Seq::empty()
    } else {
        spec_yaml_dir_text(gs[0]) + spec_yaml_dirs_text(gs.drop_first())
    }
}

/// The rendered header of a document.
pub open spec fn spec_yaml_header_text(filename: Seq<char>) -> Seq<char> {
    "---\nHeaders:\n  ToolName: "@ + crate::format::ESSTRA_TOOL_NAME@ + "\n  ToolVersion: "@
        + crate::format::ESSTRA_TOOL_VERSION@ + "\n  DataFormatVersion: "@
        + ESSTRA_DATA_FORMAT_VERSION@ + "\n  InputFileName: "@ + filename + "\nSourceFiles:"@
}

/// The whole rendered document for a header file name and a grouping.
pub open spec fn spec_yaml_text(filename: Seq<char>, gs: Seq<DirGroupView>) -> Seq<char> {
    spec_yaml_header_text(filename) + spec_yaml_dirs_text(gs)
}

proof fn lemma_files_text_push(fs: Seq<FileEntryView>, f: FileEntryView)
    ensures
        spec_yaml_files_text(fs.push(f)) == spec_yaml_files_text(fs) + spec_yaml_file_text(f),
    decreases fs.len(),
{
    if fs.len() == 0 {
        assert(fs.push(f).drop_first() =~= Seq::<FileEntryView>::empty());
        assert(fs.push(f)[0] == f);
        assert(spec_yaml_files_text(fs.push(f).drop_first()) == Seq::<char>::empty());
        assert(spec_yaml_files_text(fs) == Seq::<char>::empty());
        assert(spec_yaml_files_text(fs.push(f)) =~= spec_yaml_files_text(fs)
            + spec_yaml_file_text(f));
    } else {
        assert(fs.push(f)[0] == fs[0]);
        assert(fs.push(f).drop_first() =~= fs.drop_first().push(f));
        lemma_files_text_push(fs.drop_first(), f);
        assert(spec_yaml_files_text(fs.push(f)) =~= spec_yaml_files_text(fs)
            + spec_yaml_file_text(f));
    }
}

proof fn lemma_dirs_text_push(gs: Seq<DirGroupView>, g: DirGroupView)
    ensures
        spec_yaml_dirs_text(gs.push(g)) == spec_yaml_dirs_text(gs) + spec_yaml_dir_text(g),
    decreases gs.len(),
{
    if gs.len() == 0 {
        assert(gs.push(g).drop_first() =~= Seq::<DirGroupView>::empty());
        assert(gs.push(g)[0] == g);
        assert(spec_yaml_dirs_text(gs.push(g).drop_first()) == Seq::<char>::empty());
        assert(spec_yaml_dirs_text(gs) == Seq::<char>::empty());
        assert(spec_yaml_dirs_text(gs.push(g)) =~= spec_yaml_dirs_text(gs) + spec_yaml_dir_text(
            g,
        ));
    } else {
        assert(gs.push(g)[0] == gs[0]);
        assert(gs.push(g).drop_first() =~= gs.drop_first().push(g));
        lemma_dirs_text_push(gs.drop_first(), g);
        assert(spec_yaml_dirs_text(gs.push(g)) =~= spec_yaml_dirs_text(gs) + spec_yaml_dir_text(
            g,
        ));
    }
}

/// The metadata key/value pairs recorded for one source file: its
/// content digest when one could be computed, nothing otherwise.
pub fn process_file_for_metadata(sha1: Option<String>) -> (r: Vec<(String, String)>)
    ensures
        match sha1 {
            Some(h) => r@.len() == 1 && r@[0].0@ == "SHA1"@ && r@[0].1@ == h@,
            None => r@.len() == 0,
        },
{
    match sha1 {
        Some(h) => {
            let mut v: Vec<(String, String)> = Vec::new();
            v.push((String::from_str("SHA1"), h));
            v
        },
        None => Vec::new(),
    }
}

/// Render the embedded document for the unit being compiled: a fixed
/// header naming the tool, the format version and the given input file,
/// then every source file under its parent directory, directories and
/// files sorted lexicographically, each file with its digest when one
/// was supplied.
pub fn make_esstra_yaml(filename: &str, files: &Vec<SourceInput>) -> (r: String)
    ensures
        r@ == spec_yaml_text(filename@, spec_group(inputs_view(files@))),
{
    let groups = group_source_files(files);
    let mut out = String::new();
    out.append("---\nHeaders:\n  ToolName: ");
    out.append(crate::format::ESSTRA_TOOL_NAME);
    out.append("\n  ToolVersion: ");
    out.append(crate::format::ESSTRA_TOOL_VERSION);
    out.append("\n  DataFormatVersion: ");
    out.append(ESSTRA_DATA_FORMAT_VERSION);
    out.append("\n  InputFileName: ");
    out.append(filename);
    out.append("\nSourceFiles:");
    let ghost head = out@;
    let ghost gv = groups_view(groups@);
    proof {
        assert(head =~= spec_yaml_header_text(filename@));
        assert(gv.take(0) =~= Seq::<DirGroupView>::empty());
        assert(out@ =~= head + spec_yaml_dirs_text(gv.take(0)));
    }
    let n = groups.len();
    let mut k: usize = 0;
    while k < n
        invariant
            n == groups@.len(),
            k <= n,
            gv == groups_view(groups@),
            out@ == head + spec_yaml_dirs_text(gv.take(k as int)),
        decreases n - k,
    {
        out.append("\n- Directory: ");
        out.append(groups[k].directory.as_str());
        out.append("\n  Files:");
        let ghost dirhead = out@;
        let ghost fv = groups@[k as int]@.files;
        proof {
            assert(fv.take(0) =~= Seq::<FileEntryView>::empty());
            assert(out@ =~= dirhead + spec_yaml_files_text(fv.take(0)));
        }
        let fm = groups[k].files.len();
        let mut m: usize = 0;
        while m < fm
            invariant
                n == groups@.len(),
                k < n,
                fm == groups@[k as int].files@.len(),
                fv == groups@[k as int]@.files,
                m <= fm,
                out@ == dirhead + spec_yaml_files_text(fv.take(m as int)),
            decreases fm - m,
        {
            out.append("\n  - File: ");
            out.append(groups[k].files[m].file.as_str());
            match &groups[k].files[m].sha1 {
                Some(h) => {
                    out.append("\n    SHA1: ");
                    out.append(h.as_str());
                },
                None => {
                },
            }
            proof {
                assert(fv[m as int] == groups@[k as int].files@[m as int]@);
                lemma_files_text_push(fv.take(m as int), fv[m as int]);
                assert(fv.take(m + 1) =~= fv.take(m as int).push(fv[m as int]));
                assert(out@ =~= dirhead + spec_yaml_files_text(fv.take(m + 1)));
            }
            m += 1;
        }
        proof {
            assert(fv.take(fm as int) =~= fv);
            assert(gv[k as int] == groups@[k as int]@);
            lemma_dirs_text_push(gv.take(k as int), gv[k as int]);
            assert(gv.take(k + 1) =~= gv.take(k as int).push(gv[k as int]));
            assert(out@ =~= head + spec_yaml_dirs_text(gv.take(k + 1)));
        }
        k += 1;
    }
    proof {
        assert(gv.take(n as int) =~= gv);
    }
    out
}


pub open spec fn lit_y_head() -> Seq<char> {
    seq!['-', '-', '-', '\n', 'H', 'e', 'a', 'd', 'e', 'r', 's', ':', '\n', ' ', ' ', 'T', 'o', 'o', 'l', 'N', 'a', 'm', 'e', ':', ' ']
}

pub open spec fn lit_y_tool_version() -> Seq<char> {
    seq![' ', ' ', 'T', 'o', 'o', 'l', 'V', 'e', 'r', 's', 'i', 'o', 'n', ':', ' ']
}

pub open spec fn lit_y_data_format() -> Seq<char> {
    seq![' ', ' ', 'D', 'a', 't', 'a', 'F', 'o', 'r', 'm', 'a', 't', 'V', 'e', 'r', 's', 'i', 'o', 'n', ':', ' ']
}

pub open spec fn lit_y_input_file() -> Seq<char> {
    seq![' ', ' ', 'I', 'n', 'p', 'u', 't', 'F', 'i', 'l', 'e', 'N', 'a', 'm', 'e', ':', ' ']
}

pub open spec fn lit_y_source_files() -> Seq<char> {
    seq!['S', 'o', 'u', 'r', 'c', 'e', 'F', 'i', 'l', 'e', 's', ':']
}

pub open spec fn lit_y_dir() -> Seq<char> {
    seq!['-', ' ', 'D', 'i', 'r', 'e', 'c', 't', 'o', 'r', 'y', ':', ' ']
}

pub open spec fn lit_y_files() -> Seq<char> {
    seq![' ', ' ', 'F', 'i', 'l', 'e', 's', ':']
}

pub open spec fn lit_y_file() -> Seq<char> {
    seq![' ', ' ', '-', ' ', 'F', 'i', 'l', 'e', ':', ' ']
}

pub open spec fn lit_y_sha() -> Seq<char> {
    seq![' ', ' ', ' ', ' ', 'S', 'H', 'A', '1', ':', ' ']
}

/// One line of the form `<lit><value>`: the literal prefix, then the
/// rest of the line; the line feed (when there is one) is consumed.
pub open spec fn sp_field_line(t: Seq<char>, lit: Seq<char>) -> Option<(Seq<char>, nat)> {
    if !has_prefix(t, lit) {
        None
    } else {
        let t2 = t.skip(lit.len() as int);
        let v = t2.take(line_len(t2) as int);
        if line_len(t2) < t2.len() {
            Some((v, (lit.len() + line_len(t2) + 1) as nat))
        } else {
            Some((v, (lit.len() + line_len(t2)) as nat))
        }
    }
}

/// One file entry: its `File` line and, when the builder could hash the
/// file, its `SHA1` line.  An entry without a digest line parses with
/// the empty digest, since the record type carries the digest as a
/// plain string.
pub open spec fn sp_yaml_file(t: Seq<char>) -> Option<(FileView, nat)> {
    match sp_field_line(t, lit_y_file()) {
        None => None,
        Some(pf) => if pf.1 == 0 || pf.1 > t.len() {
            None
        } else if has_prefix(t.skip(pf.1 as int), lit_y_sha()) {
            match sp_field_line(t.skip(pf.1 as int), lit_y_sha()) {
                None => None,
                Some(ph) => Some(
                    ((FileView { file: pf.0, sha1: ph.0 }), (pf.1 + ph.1) as nat),
                ),
            }
        } else {
            Some(((FileView { file: pf.0, sha1: Seq::empty() }), pf.1))
        },
    }
}

/// Zero or more file entries.
pub open spec fn sp_yaml_files(t: Seq<char>) -> Option<(Seq<FileView>, nat)>
    decreases t.len(),
{
    if has_prefix(t, lit_y_file()) {
        match sp_yaml_file(t) {
            None => None,
            Some(q) => if q.1 == 0 || q.1 > t.len() {
                None
            } else {
                match sp_yaml_files(t.skip(q.1 as int)) {
                    None => None,
                    Some(m) => Some((seq![q.0] + m.0, (q.1 + m.1) as nat)),
                }
            },
        }
    } else {
        Some((Seq::empty(), 0))
    }
}

/// One directory block: its `Directory` line, its bare `Files:` line,
/// and its file entries.
pub open spec fn sp_yaml_dir(t: Seq<char>) -> Option<(DirView, nat)> {
    match sp_field_line(t, lit_y_dir()) {
        None => None,
        Some(pd) => if pd.1 == 0 || pd.1 > t.len() {
            None
        } else {
            match sp_field_line(t.skip(pd.1 as int), lit_y_files()) {
                None => None,
                Some(pe) => if pe.0.len() != 0 || pd.1 + pe.1 > t.len() {
                    None
                } else {
                    match sp_yaml_files(t.skip(pd.1 as int + pe.1 as int)) {
                        None => None,
                        Some(pf) => Some(
                            (
                                (DirView { directory: pd.0, files: pf.0 }),
                                (pd.1 + pe.1 + pf.1) as nat,
                            ),
                        ),
                    }
                },
            }
        },
    }
}

/// Zero or more directory blocks.
pub open spec fn sp_yaml_dirs(t: Seq<char>) -> Option<(Seq<DirView>, nat)>
    decreases t.len(),
{
    if has_prefix(t, lit_y_dir()) {
        match sp_yaml_dir(t) {
            None => None,
            Some(q) => if q.1 == 0 || q.1 > t.len() {
                None
            } else {
                match sp_yaml_dirs(t.skip(q.1 as int)) {
                    None => None,
                    Some(m) => Some((seq![q.0] + m.0, (q.1 + m.1) as nat)),
                }
            },
        }
    } else {
        Some((Seq::empty(), 0))
    }
}

/// One whole document: the header block, then the directory blocks.
pub open spec fn sp_yaml_doc(t: Seq<char>) -> Option<(YamlDocView, nat)> {
    match sp_field_line(t, lit_y_head()) {
        None => None,
        Some(p1) => if p1.1 == 0 || p1.1 > t.len() {
            None
        } else {
            match sp_field_line(t.skip(p1.1 as int), lit_y_tool_version()) {
                None => None,
                Some(p2) => if p1.1 + p2.1 > t.len() {
                    None
                } else {
                    match sp_field_line(t.skip(p1.1 as int + p2.1 as int), lit_y_data_format()) {
                        None => None,
                        Some(p3) => if p1.1 + p2.1 + p3.1 > t.len() {
                            None
                        } else {
                            match sp_field_line(
                                t.skip(p1.1 as int + p2.1 as int + p3.1 as int),
                                lit_y_input_file(),
                            ) {
                                None => None,
                                Some(p4) => if p1.1 + p2.1 + p3.1 + p4.1 > t.len() {
                                    None
                                } else {
                                    match sp_field_line(
                                        t.skip(
                                            p1.1 as int + p2.1 as int + p3.1 as int + p4.1 as int,
                                        ),
                                        lit_y_source_files(),
                                    ) {
                                        None => None,
                                        Some(p5) => if p5.0.len() != 0 || p1.1 + p2.1 + p3.1 + p4.1
                                            + p5.1 > t.len() {
                                            None
                                        } else {
                                            match sp_yaml_dirs(
                                                t.skip(
                                                    p1.1 as int + p2.1 as int + p3.1 as int
                                                        + p4.1 as int + p5.1 as int,
                                                ),
                                            ) {
                                                None => None,
                                                Some(pd) => Some(
                                                    (
                                                        (YamlDocView {
                                                            headers: HeaderView {
                                                                tool_name: p1.0,
                                                                tool_version: p2.0,
                                                                data_format_version: p3.0,
                                                                input_file_name: p4.0,
                                                            },
                                                            source_files: pd.0,
                                                        }),
                                                        (p1.1 + p2.1 + p3.1 + p4.1 + p5.1
                                                            + pd.1) as nat,
                                                    ),
                                                ),
                                            }
                                        },
                                    }
                                },
                            }
                        },
                    }
                },
            }
        },
    }
}

/// One or more concatenated documents covering the whole text.
pub open spec fn sp_yaml_docs(t: Seq<char>) -> Option<(Seq<YamlDocView>, nat)>
    decreases t.len(),
{
    match sp_yaml_doc(t) {
        None => None,
        Some(q) => if q.1 == 0 || q.1 > t.len() {
            None
        } else if q.1 == t.len() {
            Some((seq![q.0], q.1))
        } else {
            match sp_yaml_docs(t.skip(q.1 as int)) {
                None => None,
                Some(m) => Some((seq![q.0] + m.0, (q.1 + m.1) as nat)),
            }
        },
    }
}


pub open spec fn yfile_views(s: Seq<EsstraSourceFile>) -> Seq<FileView> {
    Seq::new(s.len(), |i: int| s[i]@)
}

pub open spec fn ydir_views(s: Seq<EsstraSourceDir>) -> Seq<DirView> {
    Seq::new(s.len(), |i: int| s[i]@)
}

pub open spec fn ydoc_views(s: Seq<EsstraFormat>) -> Seq<YamlDocView> {
    Seq::new(s.len(), |i: int| s[i]@)
}

/// Parse one `<lit><value>` line at position `i`.
fn parse_field_line(s: &str, i: usize, lit: &str) -> (r: Option<(String, usize)>)
    requires
        i <= s@.len(),
    ensures
        match (r, sp_field_line(s@.skip(i as int), lit@)) {
            (Some(p), Some(q)) => p.0@ == q.0 && p.1 == i + q.1 && p.1 <= s@.len(),
            (None, None) => true,
            _ => false,
        },
{
    let ghost suf = s@.skip(i as int);
    if !crate::text::match_lit(s, i, lit) {
        return None;
    }
    let k = lit.unicode_len();
    let n = s.unicode_len();
    assert(i + k <= n);
    proof {
        lemma_skip_skip(s@, i as int, k as int);
    }
    let ghost t2 = suf.skip(k as int);
    match crate::text::find_char_from(s, i + k, '\n') {
        Some(j) => {
            proof {
                assert forall|m: int| 0 <= m < j - (i + k) implies t2[m] != '\n' by {
                    assert(t2[m] == s@[i + k + m]);
                }
                assert(t2[j - (i + k)] == s@[j as int]);
                crate::format::lemma_line_len_at(t2, j - (i + k));
            }
            let v = s.substring_char(i + k, j);
            proof {
                assert(v@ =~= t2.take(line_len(t2) as int));
            }
            Some((String::from_str(v), j + 1))
        },
        None => {
            proof {
                assert forall|m: int| 0 <= m < s@.len() - (i + k) implies t2[m] != '\n' by {
                    assert(t2[m] == s@[i + k + m]);
                }
                crate::format::lemma_line_len_at(t2, s@.len() - (i + k));
            }
            let v = s.substring_char(i + k, n);
            proof {
                assert(v@ =~= t2.take(line_len(t2) as int));
            }
            Some((String::from_str(v), n))
        },
    }
}

/// Parse one file entry at position `i`.
#[verifier::rlimit(100)]
fn parse_yaml_file(s: &str, i: usize) -> (r: Option<(EsstraSourceFile, usize)>)
    requires
        i <= s@.len(),
    ensures
        match (r, sp_yaml_file(s@.skip(i as int))) {
            (Some(p), Some(q)) => p.0@ == q.0 && p.1 == i + q.1 && p.1 <= s@.len(),
            (None, None) => true,
            _ => false,
        },
{
    let ghost suf = s@.skip(i as int);
    let (f, j) = match parse_field_line(s, i, "  - File: ") {
        Some(p) => p,
        None => {
            proof {
                reveal_strlit("  - File: ");
                assert("  - File: "@ =~= lit_y_file());
            }
            return None;
        },
    };
    proof {
        reveal_strlit("  - File: ");
        assert("  - File: "@ =~= lit_y_file());
        lemma_skip_skip(s@, i as int, (j - i) as int);
    }
    if j == i {
        return None;
    }
    proof {
        reveal_strlit("    SHA1: ");
        assert("    SHA1: "@ =~= lit_y_sha());
    }
    if !crate::text::match_lit(s, j, "    SHA1: ") {
        return Some((EsstraSourceFile { file: f, SHA1: String::new() }, j));
    }
    let (h, e) = match parse_field_line(s, j, "    SHA1: ") {
        Some(p) => p,
        None => {
            return None;
        },
    };
    Some((EsstraSourceFile { file: f, SHA1: h }, e))
}

/// Parse zero or more file entries at position `i`.
#[verifier::rlimit(100)]
fn parse_yaml_files(s: &str, i: usize) -> (r: Option<(Vec<EsstraSourceFile>, usize)>)
    requires
        i <= s@.len(),
    ensures
        match (r, sp_yaml_files(s@.skip(i as int))) {
            (Some(p), Some(q)) => yfile_views(p.0@) == q.0 && p.1 == i + q.1 && p.1 <= s@.len(),
            (None, None) => true,
            _ => false,
        },
    decreases s@.len() - i,
{
    let ghost suf = s@.skip(i as int);
    proof {
        reveal_strlit("  - File: ");
        assert("  - File: "@ =~= lit_y_file());
    }
    if !crate::text::match_lit(s, i, "  - File: ") {
        let v: Vec<EsstraSourceFile> = Vec::new();
        proof {
            assert(yfile_views(v@) =~= Seq::<FileView>::empty());
        }
        return Some((v, i));
    }
    let (f0, j) = match parse_yaml_file(s, i) {
        Some(p) => p,
        None => {
            return None;
        },
    };
    if j == i {
        return None;
    }
    proof {
        lemma_skip_skip(s@, i as int, (j - i) as int);
    }
    let (mut v, e) = match parse_yaml_files(s, j) {
        Some(p) => p,
        None => {
            return None;
        },
    };
    let ghost v0 = v@;
    v.insert(0, f0);
    proof {
        assert(v@ =~= seq![f0] + v0);
        assert(yfile_views(v@) =~= seq![f0@] + yfile_views(v0));
    }
    Some((v, e))
}

/// Parse one directory block at position `i`.
#[verifier::rlimit(100)]
fn parse_yaml_dir(s: &str, i: usize) -> (r: Option<(EsstraSourceDir, usize)>)
    requires
        i <= s@.len(),
    ensures
        match (r, sp_yaml_dir(s@.skip(i as int))) {
            (Some(p), Some(q)) => p.0@ == q.0 && p.1 == i + q.1 && p.1 <= s@.len(),
            (None, None) => true,
            _ => false,
        },
{
    let ghost suf = s@.skip(i as int);
    proof {
        reveal_strlit("- Directory: ");
        assert("- Directory: "@ =~= lit_y_dir());
        reveal_strlit("  Files:");
        assert("  Files:"@ =~= lit_y_files());
    }
    let (d, j) = match parse_field_line(s, i, "- Directory: ") {
        Some(p) => p,
        None => {
            return None;
        },
    };
    if j == i {
        return None;
    }
    proof {
        lemma_skip_skip(s@, i as int, (j - i) as int);
    }
    let (e0, j2) = match parse_field_line(s, j, "  Files:") {
        Some(p) => p,
        None => {
            return None;
        },
    };
    if e0.unicode_len() != 0 {
        return None;
    }
    proof {
        lemma_skip_skip(s@, i as int, (j2 - i) as int);
    }
    let (fs, e) = match parse_yaml_files(s, j2) {
        Some(p) => p,
        None => {
            return None;
        },
    };
    let dir = EsstraSourceDir { directory: d, files: fs };
    proof {
        assert(dir@.files =~= yfile_views(fs@));
    }
    Some((dir, e))
}

/// Parse zero or more directory blocks at position `i`.
#[verifier::rlimit(100)]
fn parse_yaml_dirs(s: &str, i: usize) -> (r: Option<(Vec<EsstraSourceDir>, usize)>)
    requires
        i <= s@.len(),
    ensures
        match (r, sp_yaml_dirs(s@.skip(i as int))) {
            (Some(p), Some(q)) => ydir_views(p.0@) == q.0 && p.1 == i + q.1 && p.1 <= s@.len(),
            (None, None) => true,
            _ => false,
        },
    decreases s@.len() - i,
{
    let ghost suf = s@.skip(i as int);
    proof {
        reveal_strlit("- Directory: ");
        assert("- Directory: "@ =~= lit_y_dir());
    }
    if !crate::text::match_lit(s, i, "- Directory: ") {
        let v: Vec<EsstraSourceDir> = Vec::new();
        proof {
            assert(ydir_views(v@) =~= Seq::<DirView>::empty());
        }
        return Some((v, i));
    }
    let (d0, j) = match parse_yaml_dir(s, i) {
        Some(p) => p,
        None => {
            return None;
        },
    };
    if j == i {
        return None;
    }
    proof {
        lemma_skip_skip(s@, i as int, (j - i) as int);
    }
    let (mut v, e) = match parse_yaml_dirs(s, j) {
        Some(p) => p,
        None => {
            return None;
        },
    };
    let ghost v0 = v@;
    v.insert(0, d0);
    proof {
        assert(v@ =~= seq![d0] + v0);
        assert(ydir_views(v@) =~= seq![d0@] + ydir_views(v0));
    }
    Some((v, e))
}

/// Parse one document at position `i`.
#[verifier::rlimit(100)]
fn parse_yaml_doc(s: &str, i: usize) -> (r: Option<(EsstraFormat, usize)>)
    requires
        i <= s@.len(),
    ensures
        match (r, sp_yaml_doc(s@.skip(i as int))) {
            (Some(p), Some(q)) => p.0@ == q.0 && p.1 == i + q.1 && p.1 <= s@.len(),
            (None, None) => true,
            _ => false,
        },
{
    let ghost suf = s@.skip(i as int);
    proof {
        reveal_strlit("---\nHeaders:\n  ToolName: ");
        assert("---\nHeaders:\n  ToolName: "@ =~= lit_y_head());
    }
    let (tn, j1) = match parse_field_line(s, i, "---\nHeaders:\n  ToolName: ") {
        Some(p) => p,
        None => {
            return None;
        },
    };
    if j1 == i {
        return None;
    }
    proof {
        reveal_strlit("  ToolVersion: ");
        assert("  ToolVersion: "@ =~= lit_y_tool_version());
        lemma_skip_skip(s@, i as int, (j1 - i) as int);
    }
    let (tv, j2) = match parse_field_line(s, j1, "  ToolVersion: ") {
        Some(p) => p,
        None => {
            return None;
        },
    };
    proof {
        reveal_strlit("  DataFormatVersion: ");
        assert("  DataFormatVersion: "@ =~= lit_y_data_format());
        lemma_skip_skip(s@, i as int, (j2 - i) as int);
    }
    let (dv, j3) = match parse_field_line(s, j2, "  DataFormatVersion: ") {
        Some(p) => p,
        None => {
            return None;
        },
    };
    proof {
        reveal_strlit("  InputFileName: ");
        assert("  InputFileName: "@ =~= lit_y_input_file());
        lemma_skip_skip(s@, i as int, (j3 - i) as int);
    }
    let (ifn, j4) = match parse_field_line(s, j3, "  InputFileName: ") {
        Some(p) => p,
        None => {
            return None;
        },
    };
    proof {
        reveal_strlit("SourceFiles:");
        assert("SourceFiles:"@ =~= lit_y_source_files());
        lemma_skip_skip(s@, i as int, (j4 - i) as int);
    }
    let (sfv, j5) = match parse_field_line(s, j4, "SourceFiles:") {
        Some(p) => p,
        None => {
            return None;
        },
    };
    if sfv.unicode_len() != 0 {
        return None;
    }
    proof {
        lemma_skip_skip(s@, i as int, (j5 - i) as int);
    }
    let (dirs, e) = match parse_yaml_dirs(s, j5) {
        Some(p) => p,
        None => {
            return None;
        },
    };
    let doc = EsstraFormat {
        headers: EsstraHeader {
            tool_name: tn,
            tool_version: tv,
            data_format_version: dv,
            input_file_name: ifn,
        },
        source_files: dirs,
    };
    proof {
        assert(doc@.source_files =~= ydir_views(dirs@));
    }
    Some((doc, e))
}

/// Parse one or more concatenated documents covering all of `s` from
/// position `i`.
#[verifier::rlimit(100)]
fn parse_yaml_docs(s: &str, i: usize) -> (r: Option<(Vec<EsstraFormat>, usize)>)
    requires
        i <= s@.len(),
    ensures
        match (r, sp_yaml_docs(s@.skip(i as int))) {
            (Some(p), Some(q)) => ydoc_views(p.0@) == q.0 && p.1 == i + q.1 && p.1 <= s@.len(),
            (None, None) => true,
            _ => false,
        },
    decreases s@.len() - i,
{
    let ghost suf = s@.skip(i as int);
    let n = s.unicode_len();
    let (d0, j) = match parse_yaml_doc(s, i) {
        Some(p) => p,
        None => {
            return None;
        },
    };
    if j == i {
        return None;
    }
    if j == n {
        let mut v: Vec<EsstraFormat> = Vec::new();
        v.push(d0);
        proof {
            assert(v@ =~= seq![d0]);
            assert(ydoc_views(v@) =~= seq![d0@]);
        }
        return Some((v, j));
    }
    proof {
        lemma_skip_skip(s@, i as int, (j - i) as int);
    }
    let (mut v, e) = match parse_yaml_docs(s, j) {
        Some(p) => p,
        None => {
            return None;
        },
    };
    let ghost v0 = v@;
    v.insert(0, d0);
    proof {
        assert(v@ =~= seq![d0] + v0);
        assert(ydoc_views(v@) =~= seq![d0@] + ydoc_views(v0));
    }
    Some((v, e))
}

/// Parse a whole embedded text as one or more concatenated documents.
///
/// This reads the exact line shapes `make_esstra_yaml` renders; the
/// same data arranged as any other YAML text is not recognized.
pub fn parse_esstra_yaml(s: &str) -> (r: Option<Vec<EsstraFormat>>)
    ensures
        match (r, sp_yaml_docs(s@)) {
            (Some(v), Some(q)) => ydoc_views(v@) == q.0,
            (None, None) => true,
            _ => false,
        },
{
    proof {
        assert(s@.skip(0) =~= s@);
    }
    match parse_yaml_docs(s, 0) {
        Some(p) => Some(p.0),
        None => None,
    }
}


/// Text that can stand as one line's value: no line break and no
/// carriage return.
pub open spec fn clean_line_text(v: Seq<char>) -> bool {
    forall|i: int| 0 <= i < v.len() ==> v[i] != '\n' && v[i] != '\r'
}

/// One rendered `<lit><value>` line, terminated by the line feed that
/// opens whatever follows, parses back to exactly its value.
proof fn lemma_field_line_round(lit: Seq<char>, v: Seq<char>, rest: Seq<char>)
    requires
        clean_line_text(v),
    ensures
        sp_field_line(lit + (v + (seq!['\n'] + rest)), lit) == Some::<(Seq<char>, nat)>(
            (v, (lit.len() + v.len() + 1) as nat),
        ),
        (lit + (v + (seq!['\n'] + rest))).skip(lit.len() as int + v.len() as int + 1) =~= rest,
{
    let t = lit + (v + (seq!['\n'] + rest));
    crate::text::lemma_has_prefix_concat(lit, v + (seq!['\n'] + rest));
    crate::text::lemma_skip_of_concat(lit, v + (seq!['\n'] + rest));
    let t2 = t.skip(lit.len() as int);
    assert(t2 =~= v + (seq!['\n'] + rest));
    assert forall|m: int| 0 <= m < v.len() implies t2[m] != '\n' by {
        assert(t2[m] == v[m]);
    }
    assert(t2[v.len() as int] == '\n');
    crate::format::lemma_line_len_at(t2, v.len() as int);
    assert(t2.take(v.len() as int) =~= v);
    assert(strip_cr(v) == v);
    crate::text::lemma_skip_skip(t, lit.len() as int, v.len() as int + 1);
    assert(t2.skip(v.len() as int + 1) =~= rest);
}

/// The rendered final line `<lit>` with an empty value and no line
/// feed after it parses back to the empty value.
proof fn lemma_field_line_round_end(lit: Seq<char>)
    ensures
        sp_field_line(lit + Seq::<char>::empty(), lit) == Some::<(Seq<char>, nat)>(
            (Seq::empty(), lit.len() as nat),
        ),
        sp_field_line(lit, lit) == Some::<(Seq<char>, nat)>((Seq::empty(), lit.len() as nat)),
{
    crate::text::lemma_has_prefix_concat(lit, Seq::empty());
    crate::text::lemma_skip_of_concat(lit, Seq::empty());
    assert(lit + Seq::<char>::empty() =~= lit);
    let t2 = lit.skip(lit.len() as int);
    assert(t2 =~= Seq::<char>::empty());
    crate::format::lemma_line_len_at(t2, 0);
    assert(t2.take(0) =~= Seq::<char>::empty());
    assert(strip_cr(Seq::<char>::empty()) =~= Seq::<char>::empty());
}

/// The document the builder renders for a file name and no source
/// files at all: its header comes back field for field.  This is the
/// header half of the format round trip; the source-file half is
/// covered for concrete documents by the crate's tests.
#[verifier::rlimit(100)]
pub proof fn lemma_yaml_header_round_trip(filename: Seq<char>)
    requires
        clean_line_text(filename),
    ensures
        sp_yaml_docs(spec_yaml_text(filename, Seq::empty())) matches Some(q) && q.0 == seq![
            YamlDocView {
                headers: HeaderView {
                    tool_name: crate::format::ESSTRA_TOOL_NAME@,
                    tool_version: crate::format::ESSTRA_TOOL_VERSION@,
                    data_format_version: ESSTRA_DATA_FORMAT_VERSION@,
                    input_file_name: filename,
                },
                source_files: Seq::empty(),
            },
        ],
{
    reveal_strlit("---\nHeaders:\n  ToolName: ");
    reveal_strlit("\n  ToolVersion: ");
    reveal_strlit("\n  DataFormatVersion: ");
    reveal_strlit("\n  InputFileName: ");
    reveal_strlit("\nSourceFiles:");
    reveal_strlit("ESSTRA Core");
    reveal_strlit("0.4.0");
    reveal_strlit("0.1.0");
    assert("---\nHeaders:\n  ToolName: "@ =~= lit_y_head());
    assert("\n  ToolVersion: "@ =~= seq!['\n'] + lit_y_tool_version());
    assert("\n  DataFormatVersion: "@ =~= seq!['\n'] + lit_y_data_format());
    assert("\n  InputFileName: "@ =~= seq!['\n'] + lit_y_input_file());
    assert("\nSourceFiles:"@ =~= seq!['\n'] + lit_y_source_files());
    let tool = crate::format::ESSTRA_TOOL_NAME@;
    let ver = crate::format::ESSTRA_TOOL_VERSION@;
    let dfv = ESSTRA_DATA_FORMAT_VERSION@;
    assert(clean_line_text(tool));
    assert(clean_line_text(ver));
    assert(clean_line_text(dfv));
    let t = spec_yaml_text(filename, Seq::empty());
    assert(spec_yaml_dirs_text(Seq::empty()) == Seq::<char>::empty());
    let t5 = lit_y_source_files();
    let t4 = lit_y_input_file() + (filename + (seq!['\n'] + t5));
    let t3 = lit_y_data_format() + (dfv + (seq!['\n'] + t4));
    let t2 = lit_y_tool_version() + (ver + (seq!['\n'] + t3));
    let t1 = lit_y_head() + (tool + (seq!['\n'] + t2));
    assert(t =~= t1);
    lemma_field_line_round(lit_y_head(), tool, t2);
    lemma_field_line_round(lit_y_tool_version(), ver, t3);
    lemma_field_line_round(lit_y_data_format(), dfv, t4);
    lemma_field_line_round(lit_y_input_file(), filename, t5);
    lemma_field_line_round_end(lit_y_source_files());
    assert(t1.skip(lit_y_head().len() as int + tool.len() as int + 1) =~= t2);
    let c1 = (lit_y_head().len() + tool.len() + 1) as nat;
    let c2 = (lit_y_tool_version().len() + ver.len() + 1) as nat;
    let c3 = (lit_y_data_format().len() + dfv.len() + 1) as nat;
    let c4 = (lit_y_input_file().len() + filename.len() + 1) as nat;
    let c5 = lit_y_source_files().len() as nat;
    crate::text::lemma_skip_skip(t1, c1 as int, c2 as int);
    assert(t1.skip(c1 as int).skip(c2 as int) =~= t3);
    crate::text::lemma_skip_skip(t1, c1 as int + c2 as int, c3 as int);
    assert(t1.skip(c1 as int + c2 as int) =~= t3);
    assert(t1.skip(c1 as int + c2 as int + c3 as int) =~= t4);
    assert(t1.skip(c1 as int + c2 as int + c3 as int + c4 as int) =~= t5) by {
        crate::text::lemma_skip_skip(t1, c1 as int + c2 as int + c3 as int, c4 as int);
    }
    assert(sp_field_line(t1, lit_y_head()) == Some::<(Seq<char>, nat)>((tool, c1)));
    assert(sp_field_line(t1.skip(c1 as int), lit_y_tool_version()) == Some::<(Seq<char>, nat)>(
        (ver, c2),
    ));
    assert(sp_field_line(t1.skip(c1 as int + c2 as int), lit_y_data_format()) == Some::<
        (Seq<char>, nat),
    >((dfv, c3)));
    assert(sp_field_line(t1.skip(c1 as int + c2 as int + c3 as int), lit_y_input_file())
        == Some::<(Seq<char>, nat)>((filename, c4)));
    assert(sp_field_line(
        t1.skip(c1 as int + c2 as int + c3 as int + c4 as int),
        lit_y_source_files(),
    ) == Some::<(Seq<char>, nat)>((Seq::empty(), c5)));
    assert(t1.len() == c1 + c2 + c3 + c4 + c5);
    let after = t1.skip(c1 as int + c2 as int + c3 as int + c4 as int + c5 as int);
    assert(after =~= Seq::<char>::empty()) by {
        crate::text::lemma_skip_skip(t1, c1 as int + c2 as int + c3 as int + c4 as int, c5 as int);
        crate::text::lemma_skip_of_concat(t5, Seq::empty());
        assert(t5 + Seq::<char>::empty() =~= t5);
    }
    assert(!has_prefix(after, lit_y_dir()));
    assert(sp_yaml_dirs(after) == Some::<(Seq<DirView>, nat)>((Seq::empty(), 0nat)));
    assert(sp_yaml_doc(t1) matches Some(q) && q.0 == (YamlDocView {
        headers: HeaderView {
            tool_name: tool,
            tool_version: ver,
            data_format_version: dfv,
            input_file_name: filename,
        },
        source_files: Seq::empty(),
    }) && q.1 == t1.len());
    assert(sp_yaml_docs(t1) matches Some(q) && q.0 == seq![
        YamlDocView {
            headers: HeaderView {
                tool_name: tool,
                tool_version: ver,
                data_format_version: dfv,
                input_file_name: filename,
            },
            source_files: Seq::empty(),
        },
    ]);
}

} // verus!
