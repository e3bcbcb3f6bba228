use vstd::prelude::*;

use crate::pattern::{regex_accepts, Pattern};
use crate::seqs::{lemma_filter_members, lemma_filter_push, lemma_map_push};

verus! {

// ---------------------------------------------------------------------------
// Files and their mathematical values
// ---------------------------------------------------------------------------

/// One on-disk file eligible for synchronization: its path and its bare
/// filename, the comparison key within a directory listing.
#[derive(Debug)]
pub struct File {
    pub path: String,
    pub filename: String,
}

/// The mathematical value of a `File`.
pub struct FileV {
    pub path: Seq<char>,
    pub name: Seq<char>,
}

impl View for File {
    type V = FileV;

    open spec fn view(&self) -> FileV {
        FileV { path: self.path@, name: self.filename@ }
    }
}

impl File {
    pub fn new(path: String, filename: String) -> (r: File)
        ensures
            r@.path == path@,
            r@.name == filename@,
    {
        File { path, filename }
    }

    /// An identical copy of this entry.
    pub fn duplicate(&self) -> (r: File)
        ensures
            r@ == self@,
    {
        File { path: self.path.clone(), filename: self.filename.clone() }
    }
}

/// A file present in both directories whose byte lengths differ:
/// `old_size` is the source length, `new_size` the destination length.
#[derive(Debug)]
pub struct ChangedFile {
    pub file: File,
    pub old_size: u64,
    pub new_size: u64,
}

/// The mathematical value of a `ChangedFile`.
pub struct ChangeV {
    pub file: FileV,
    pub old_size: u64,
    pub new_size: u64,
}

impl View for ChangedFile {
    type V = ChangeV;

    open spec fn view(&self) -> ChangeV {
        ChangeV { file: self.file@, old_size: self.old_size, new_size: self.new_size }
    }
}

/// One directory entry as the lister saw it: the file and its byte length,
/// `None` when the metadata read failed.
#[derive(Debug)]
pub struct ListedFile {
    pub file: File,
    pub size: Option<u64>,
}

/// The mathematical value of a `ListedFile`.
pub struct ListedV {
    pub file: FileV,
    pub size: Option<u64>,
}

impl View for ListedFile {
    type V = ListedV;

    open spec fn view(&self) -> ListedV {
        ListedV { file: self.file@, size: self.size }
    }
}

/// The values of a sequence of listed entries.
pub open spec fn entry_views(entries: Seq<ListedFile>) -> Seq<ListedV> {
    entries.map_values(|e: ListedFile| e@)
}

/// The values of a sequence of strings.
pub open spec fn str_views(strings: Seq<String>) -> Seq<Seq<char>> {
    strings.map_values(|s: String| s@)
}

/// The values of a sequence of files.
pub open spec fn file_views(files: Seq<File>) -> Seq<FileV> {
    files.map_values(|f: File| f@)
}

/// The values of a sequence of change records.
pub open spec fn change_views(changes: Seq<ChangedFile>) -> Seq<ChangeV> {
    changes.map_values(|c: ChangedFile| c@)
}

pub proof fn lemma_file_views_push(files: Seq<File>, f: File)
    ensures
        file_views(files.push(f)) == file_views(files).push(f@),
{
    assert(file_views(files.push(f)) =~= file_views(files).push(f@));
}

pub proof fn lemma_change_views_push(changes: Seq<ChangedFile>, c: ChangedFile)
    ensures
        change_views(changes.push(c)) == change_views(changes).push(c@),
{
    assert(change_views(changes.push(c)) =~= change_views(changes).push(c@));
}

pub proof fn lemma_entry_views_push(entries: Seq<ListedFile>, e: ListedFile)
    ensures
        entry_views(entries.push(e)) == entry_views(entries).push(e@),
{
    assert(entry_views(entries.push(e)) =~= entry_views(entries).push(e@));
}

// ---------------------------------------------------------------------------
// Actions
// ---------------------------------------------------------------------------

/// The kind of filesystem mutation a pending action asks for.
#[derive(Clone, Copy, Debug, PartialEq, Eq, Structural)]
pub enum Mode {
    ADD,
    REMOVE,
    UPDATE,
}

/// Whether an action of the given kind may be executed when the destination
/// file does or does not exist: an add must not clobber an existing file,
/// while a delete or update needs the file to still be there.
pub open spec fn guard_allows(mode: Mode, target_exists: bool) -> bool {
    match mode {
        Mode::ADD => !target_exists,
        Mode::REMOVE => target_exists,
        Mode::UPDATE => target_exists,
    }
}

impl Mode {
    /// The name of this action kind, as log lines print it.
    pub open spec fn label_spec(self) -> Seq<char> {
        match self {
            Mode::ADD => "ADD"@,
            Mode::REMOVE => "REMOVE"@,
            Mode::UPDATE => "UPDATE"@,
        }
    }

    /// The name of this action kind, as log lines print it.
    pub fn label(&self) -> (r: &'static str)
        ensures
            r@ == self.label_spec(),
    {
        match self {
            Mode::ADD => "ADD",
            Mode::REMOVE => "REMOVE",
            Mode::UPDATE => "UPDATE",
        }
    }

    /// The existence guard for executing this action against the destination.
    pub fn allowed_when(&self, target_exists: bool) -> (r: bool)
        ensures
            r == guard_allows(*self, target_exists),
    {
        match self {
            Mode::ADD => !target_exists,
            Mode::REMOVE => target_exists,
            Mode::UPDATE => target_exists,
        }
    }
}

// ---------------------------------------------------------------------------
// Results of one reconciliation pass
// ---------------------------------------------------------------------------

/// The pending actions of one reconciliation pass, each collection in the
/// order the files were listed.
#[derive(Debug)]
pub struct FileCheckResults {
    pub to_add: Vec<File>,
    pub to_delete: Vec<File>,
    pub to_rewrite: Vec<ChangedFile>,
}

/// The mathematical value of `FileCheckResults`.
pub struct ResultsV {
    pub to_add: Seq<FileV>,
    pub to_delete: Seq<FileV>,
    pub to_rewrite: Seq<ChangeV>,
}

impl View for FileCheckResults {
    type V = ResultsV;

    open spec fn view(&self) -> ResultsV {
        ResultsV {
            to_add: file_views(self.to_add@),
            to_delete: file_views(self.to_delete@),
            to_rewrite: change_views(self.to_rewrite@),
        }
    }
}

/// Whether any action is still pending.
pub open spec fn has_ops(r: ResultsV) -> bool {
    r.to_add.len() > 0 || r.to_delete.len() > 0 || r.to_rewrite.len() > 0
}

/// What one call of `next` returns and leaves behind: the last entry of the
/// first non-empty collection, updates first, then adds, then deletes.
pub open spec fn step(r: ResultsV) -> Option<((Mode, FileV), ResultsV)> {
    if r.to_rewrite.len() > 0 {
        Some(
            (
                (Mode::UPDATE, r.to_rewrite.last().file),
                ResultsV { to_rewrite: r.to_rewrite.drop_last(), ..r },
            ),
        )
    } else if r.to_add.len() > 0 {
        Some(((Mode::ADD, r.to_add.last()), ResultsV { to_add: r.to_add.drop_last(), ..r }))
    } else if r.to_delete.len() > 0 {
        Some(
            (
                (Mode::REMOVE, r.to_delete.last()),
                ResultsV { to_delete: r.to_delete.drop_last(), ..r },
            ),
        )
    } else {
        None
    }
}

impl FileCheckResults {
    pub fn has_any_operations(&self) -> (r: bool)
        ensures
            r == has_ops(self@),
    {
        !self.to_add.is_empty() || !self.to_delete.is_empty() || !self.to_rewrite.is_empty()
    }

    /// Remove and return the next pending action: updates drain first, then
    /// adds, then deletes, each last-listed-first.
    pub fn next(&mut self) -> (r: Option<(Mode, File)>)
        ensures
            match step(old(self)@) {
                None => r is None && final(self)@ == old(self)@,
                Some(picked) => r matches Some(a) && a.0 == picked.0.0 && a.1@ == picked.0.1
                    && final(self)@ == picked.1,
            },
    {
        if self.to_rewrite.len() > 0 {
            let changed = self.to_rewrite.pop().unwrap();
            proof {
                assert(self@.to_rewrite =~= old(self)@.to_rewrite.drop_last());
                assert(self@.to_add =~= old(self)@.to_add);
                assert(self@.to_delete =~= old(self)@.to_delete);
            }
            Some((Mode::UPDATE, changed.file))
        } else if self.to_add.len() > 0 {
            let file = self.to_add.pop().unwrap();
            proof {
                assert(self@.to_add =~= old(self)@.to_add.drop_last());
                assert(self@.to_delete =~= old(self)@.to_delete);
                assert(self@.to_rewrite =~= old(self)@.to_rewrite);
            }
            Some((Mode::ADD, file))
        } else if self.to_delete.len() > 0 {
            let file = self.to_delete.pop().unwrap();
            proof {
                assert(self@.to_delete =~= old(self)@.to_delete.drop_last());
                assert(self@.to_add =~= old(self)@.to_add);
                assert(self@.to_rewrite =~= old(self)@.to_rewrite);
            }
            Some((Mode::REMOVE, file))
        } else {
            None
        }
    }
}

// ---------------------------------------------------------------------------
// Classifying two listings
// ---------------------------------------------------------------------------

/// Whether some entry of the listing carries the name `n`.
pub open spec fn has_name(s: Seq<ListedV>, n: Seq<char>) -> bool {
    exists|i: int| 0 <= i < s.len() && s[i].file.name == n
}

/// Filenames are the comparison key of a listing: within one directory they
/// never repeat.
pub open spec fn unique_names(s: Seq<ListedV>) -> bool {
    forall|i: int, j: int| 0 <= i < j < s.len() ==> s[i].file.name != s[j].file.name
}

/// The byte length recorded for the entry named `n`; meaningful when names
/// are unique.
pub open spec fn size_at(s: Seq<ListedV>, n: Seq<char>) -> Option<u64> {
    if has_name(s, n) {
        s[choose|i: int| 0 <= i < s.len() && s[i].file.name == n].size
    } else {
        None
    }
}

/// Whether a source entry must be reported as an update against the
/// destination listing `d`: a same-named entry exists there, both byte
/// lengths are known, and they differ. A failed metadata read on either side
/// drops the pair from the pass.
pub open spec fn is_update(d: Seq<ListedV>, e: ListedV) -> bool {
    has_name(d, e.file.name) && e.size is Some && size_at(d, e.file.name) is Some && e.size
        != size_at(d, e.file.name)
}

/// The entries whose names the listing `other` does not carry.
pub open spec fn missing_from(other: Seq<ListedV>) -> spec_fn(ListedV) -> bool {
    |e: ListedV| !has_name(other, e.file.name)
}

/// Whether a source entry is an update against `d`, as a predicate.
pub open spec fn update_pred(d: Seq<ListedV>) -> spec_fn(ListedV) -> bool {
    |e: ListedV| is_update(d, e)
}

/// The file carried by an entry.
pub open spec fn file_of() -> spec_fn(ListedV) -> FileV {
    |e: ListedV| e.file
}

/// The change record for a source entry matched in `d`.
pub open spec fn change_of(d: Seq<ListedV>) -> spec_fn(ListedV) -> ChangeV {
    |e: ListedV|
        (ChangeV { file: e.file, old_size: e.size->0, new_size: size_at(d, e.file.name)->0 })
}

/// The files to copy over: in the source, not in the destination, in source
/// listing order.
pub open spec fn adds_of(s: Seq<ListedV>, d: Seq<ListedV>) -> Seq<FileV> {
    s.filter(missing_from(d)).map_values(file_of())
}

/// The files to remove: in the destination, not in the source, in
/// destination listing order.
pub open spec fn deletes_of(s: Seq<ListedV>, d: Seq<ListedV>) -> Seq<FileV> {
    d.filter(missing_from(s)).map_values(file_of())
}

/// The files to overwrite: present on both sides with differing known byte
/// lengths, in source listing order, carrying the source (`old_size`) and
/// destination (`new_size`) lengths.
pub open spec fn updates_of(s: Seq<ListedV>, d: Seq<ListedV>) -> Seq<ChangeV> {
    s.filter(update_pred(d)).map_values(change_of(d))
}

/// Whether some file in the collection carries the name `n`.
pub open spec fn files_have(files: Seq<FileV>, n: Seq<char>) -> bool {
    exists|i: int| 0 <= i < files.len() && files[i].name == n
}

/// Whether some change record carries the name `n`.
pub open spec fn changes_have(changes: Seq<ChangeV>, n: Seq<char>) -> bool {
    exists|i: int| 0 <= i < changes.len() && changes[i].file.name == n
}

/// No two files in the collection share a name.
pub open spec fn files_unique(files: Seq<FileV>) -> bool {
    forall|i: int, j: int| 0 <= i < j < files.len() ==> files[i].name != files[j].name
}

/// No two change records share a name.
pub open spec fn changes_unique(changes: Seq<ChangeV>) -> bool {
    forall|i: int, j: int|
        0 <= i < j < changes.len() ==> changes[i].file.name != changes[j].file.name
}

/// Whether both listings record a length for `n` and the lengths differ.
pub open spec fn sizes_differ(s: Seq<ListedV>, d: Seq<ListedV>, n: Seq<char>) -> bool {
    size_at(s, n) is Some && size_at(d, n) is Some && size_at(s, n) != size_at(d, n)
}

/// In a listing with unique names, the entry found at any index is the one
/// `size_at` speaks of.
pub proof fn lemma_size_at_index(d: Seq<ListedV>, j: int)
    requires
        unique_names(d),
        0 <= j < d.len(),
    ensures
        has_name(d, d[j].file.name),
        size_at(d, d[j].file.name) == d[j].size,
{
    let n = d[j].file.name;
    assert(has_name(d, n));
    let w = choose|i: int| 0 <= i < d.len() && d[i].file.name == n;
    if w != j {
        assert(d[w].file.name != d[j].file.name);
    }
}

/// Find the index of the entry named `name`, if any.
fn find_by_name(entries: &Vec<ListedFile>, name: &String) -> (r: Option<usize>)
    ensures
        match r {
            Some(i) => 0 <= i < entries@.len() && entry_views(entries@)[i as int].file.name
                == name@,
            None => !has_name(entry_views(entries@), name@),
        },
{
    let mut i: usize = 0;
    while i < entries.len()
        invariant
            0 <= i <= entries@.len(),
            forall|j: int| 0 <= j < i ==> entry_views(entries@)[j].file.name != name@,
        decreases entries@.len() - i,
    {
        if entries[i].file.filename == *name {
            return Some(i);
        }
        i += 1;
    }
    None
}

/// Classify two filtered listings with unique filenames into the pending
/// actions of one reconciliation pass.
pub fn classify(src: &Vec<ListedFile>, dest: &Vec<ListedFile>) -> (r: FileCheckResults)
    requires
        unique_names(entry_views(src@)),
        unique_names(entry_views(dest@)),
    ensures
        r@.to_add == adds_of(entry_views(src@), entry_views(dest@)),
        r@.to_delete == deletes_of(entry_views(src@), entry_views(dest@)),
        r@.to_rewrite == updates_of(entry_views(src@), entry_views(dest@)),
{
    let ghost sv = entry_views(src@);
    let ghost dv = entry_views(dest@);
    let mut to_add: Vec<File> = Vec::new();
    let mut to_rewrite: Vec<ChangedFile> = Vec::new();
    let mut i: usize = 0;
    while i < src.len()
        invariant
            0 <= i <= src@.len(),
            sv == entry_views(src@),
            dv == entry_views(dest@),
            unique_names(dv),
            file_views(to_add@) == adds_of(sv.subrange(0, i as int), dv),
            change_views(to_rewrite@) == updates_of(sv.subrange(0, i as int), dv),
        decreases src@.len() - i,
    {
        let ghost prefix = sv.subrange(0, i as int);
        let entry = &src[i];
        proof {
            assert(sv[i as int] == entry@);
        }
        match find_by_name(dest, &entry.file.filename) {
            None => {
                let ghost old_adds = to_add@;
                let pushed = entry.file.duplicate();
                let ghost pushed_add = pushed;
                to_add.push(pushed);
                proof {
                    lemma_filter_push(prefix, sv[i as int], missing_from(dv));
                    lemma_map_push(prefix.filter(missing_from(dv)), sv[i as int], file_of());
                    lemma_filter_push(prefix, sv[i as int], update_pred(dv));
                    lemma_file_views_push(old_adds, pushed_add);
                    assert(file_views(to_add@) == adds_of(prefix, dv).push(sv[i as int].file));
                }
            },
            Some(j) => {
                proof {
                    lemma_size_at_index(dv, j as int);
                    assert(has_name(dv, sv[i as int].file.name));
                    lemma_filter_push(prefix, sv[i as int], missing_from(dv));
                    lemma_filter_push(prefix, sv[i as int], update_pred(dv));
                }
                match (entry.size, dest[j].size) {
                    (Some(ssize), Some(dsize)) => {
                        if ssize != dsize {
                            let ghost old_rewrites = to_rewrite@;
                            let pushed = ChangedFile {
                                file: entry.file.duplicate(),
                                old_size: ssize,
                                new_size: dsize,
                            };
                            let ghost pushed_change = pushed;
                            to_rewrite.push(pushed);
                            proof {
                                assert(is_update(dv, sv[i as int]));
                                lemma_map_push(
                                    prefix.filter(update_pred(dv)),
                                    sv[i as int],
                                    change_of(dv),
                                );
                                lemma_change_views_push(old_rewrites, pushed_change);
                                assert(change_views(to_rewrite@) == updates_of(prefix, dv).push(
                                    change_of(dv)(sv[i as int])));
                            }
                        } else {
                            proof {
                                assert(!is_update(dv, sv[i as int]));
                            }
                        }
                    },
                    _ => {
                        proof {
                            assert(!is_update(dv, sv[i as int]));
                        }
                    },
                }
            },
        }
        proof {
            assert(sv.subrange(0, i + 1) =~= prefix.push(sv[i as int]));
        }
        i += 1;
    }
    let mut to_delete: Vec<File> = Vec::new();
    let mut k: usize = 0;
    while k < dest.len()
        invariant
            0 <= k <= dest@.len(),
            sv == entry_views(src@),
            dv == entry_views(dest@),
            file_views(to_delete@) == deletes_of(sv, dv.subrange(0, k as int)),
        decreases dest@.len() - k,
    {
        let ghost prefix = dv.subrange(0, k as int);
        let entry = &dest[k];
        proof {
            assert(dv[k as int] == entry@);
        }
        match find_by_name(src, &entry.file.filename) {
            None => {
                let ghost old_deletes = to_delete@;
                let pushed = entry.file.duplicate();
                let ghost pushed_delete = pushed;
                to_delete.push(pushed);
                proof {
                    lemma_filter_push(prefix, dv[k as int], missing_from(sv));
                    lemma_map_push(prefix.filter(missing_from(sv)), dv[k as int], file_of());
                    lemma_file_views_push(old_deletes, pushed_delete);
                    assert(file_views(to_delete@) == deletes_of(sv, prefix).push(
                        dv[k as int].file));
                }
            },
            Some(_) => {
                proof {
                    lemma_filter_push(prefix, dv[k as int], missing_from(sv));
                }
            },
        }
        proof {
            assert(dv.subrange(0, k + 1) =~= prefix.push(dv[k as int]));
        }
        k += 1;
    }
    proof {
        assert(sv.subrange(0, sv.len() as int) =~= sv);
        assert(dv.subrange(0, dv.len() as int) =~= dv);
    }
    FileCheckResults { to_add, to_delete, to_rewrite }
}

// ---------------------------------------------------------------------------
// Filename filters
// ---------------------------------------------------------------------------

/// A name is eligible only if it matches every required pattern.
pub open spec fn matches_all(patterns: Seq<Seq<char>>, name: Seq<char>) -> bool {
    forall|i: int| 0 <= i < patterns.len() ==> #[trigger] regex_accepts(patterns[i], name)
}

/// A name is eligible only if it matches no exclude pattern.
pub open spec fn matches_none(patterns: Seq<Seq<char>>, name: Seq<char>) -> bool {
    forall|i: int| 0 <= i < patterns.len() ==> !#[trigger] regex_accepts(patterns[i], name)
}

/// Hidden files, names starting with a period, are always excluded.
pub open spec fn hidden(name: Seq<char>) -> bool {
    name.len() > 0 && name[0] == '.'
}

/// Whether a filename takes part in reconciliation at all.
pub open spec fn eligible(required: Seq<Seq<char>>, exclude: Seq<Seq<char>>, name: Seq<char>) -> bool {
    !hidden(name) && matches_all(required, name) && matches_none(exclude, name)
}

/// Eligibility of a listed entry, as a predicate.
pub open spec fn eligible_pred(required: Seq<Seq<char>>, exclude: Seq<Seq<char>>) -> spec_fn(
    ListedV,
) -> bool {
    |e: ListedV| eligible(required, exclude, e.file.name)
}

/// The entries of a listing that survive the hidden-file rule and the
/// required/exclude patterns, in listing order.
pub open spec fn kept_entries(
    required: Seq<Seq<char>>,
    exclude: Seq<Seq<char>>,
    s: Seq<ListedV>,
) -> Seq<ListedV> {
    s.filter(eligible_pred(required, exclude))
}

/// Filtering a listing with unique filenames leaves the names unique.
pub proof fn lemma_filter_unique_names(s: Seq<ListedV>, pred: spec_fn(ListedV) -> bool)
    requires
        unique_names(s),
    ensures
        unique_names(s.filter(pred)),
    decreases s.len(),
{
    if s.len() == 0 {
        reveal_with_fuel(Seq::filter, 1);
        assert(s.filter(pred) =~= Seq::<ListedV>::empty());
    } else {
        let pre = s.drop_last();
        assert(unique_names(pre));
        lemma_filter_unique_names(pre, pred);
        lemma_filter_push(pre, s.last(), pred);
        assert(pre.push(s.last()) =~= s);
        if pred(s.last()) {
            lemma_filter_members(pre, pred);
            let out = s.filter(pred);
            assert(out == pre.filter(pred).push(s.last()));
            assert forall|i: int, j: int| 0 <= i < j < out.len() implies out[i].file.name
                != out[j].file.name by {
                if j == out.len() - 1 {
                    assert(out[j] == s.last());
                    assert(pre.contains(pre.filter(pred)[i]));
                    let w = choose|w: int| 0 <= w < pre.len() && pre[w] == pre.filter(pred)[i];
                    assert(s[w] == out[i]);
                    assert(s[w].file.name != s[s.len() - 1].file.name);
                }
            }
        }
    }
}

// ---------------------------------------------------------------------------
// The reconciliation engine
// ---------------------------------------------------------------------------

/// The reconciliation engine: the two directory paths and the compiled
/// filename filters.
pub struct FileChecker {
    pub src_dir: String,
    pub dest_dir: String,
    required: Vec<Pattern>,
    exclude: Vec<Pattern>,
}

/// The mathematical value of a `FileChecker`: the paths and the texts the
/// filter patterns were compiled from.
pub struct CheckerV {
    pub src_dir: Seq<char>,
    pub dest_dir: Seq<char>,
    pub required: Seq<Seq<char>>,
    pub exclude: Seq<Seq<char>>,
}

impl View for FileChecker {
    type V = CheckerV;

    closed spec fn view(&self) -> CheckerV {
        CheckerV {
            src_dir: self.src_dir@,
            dest_dir: self.dest_dir@,
            required: self.required@.map_values(|p: Pattern| p@),
            exclude: self.exclude@.map_values(|p: Pattern| p@),
        }
    }
}

/// What one attempt to list a directory produced: the entries read together
/// with the soft per-entry error descriptions collected along the way, or
/// the error that opening the directory gave.
#[derive(Debug)]
pub enum DirListing {
    Opened { entries: Vec<ListedFile>, errors: Vec<String> },
    Failed(String),
}

impl DirListing {
    /// The message this listing contributes when its directory could not be
    /// opened at all.
    pub open spec fn open_error_views(self) -> Seq<Seq<char>> {
        match self {
            DirListing::Failed(msg) => seq![msg@],
            DirListing::Opened { .. } => Seq::<Seq<char>>::empty(),
        }
    }
}

/// A fatal reconciliation failure: for each side the collected error
/// descriptions, empty when that side listed usable files.
#[derive(Debug)]
pub struct EngineError {
    pub source_errors: Vec<String>,
    pub dest_errors: Vec<String>,
}

impl FileChecker {
    pub fn new(
        src_dir: String,
        dest_dir: String,
        required: Vec<Pattern>,
        exclude: Vec<Pattern>,
    ) -> (r: FileChecker)
        ensures
            r@.src_dir == src_dir@,
            r@.dest_dir == dest_dir@,
            r@.required == required@.map_values(|p: Pattern| p@),
            r@.exclude == exclude@.map_values(|p: Pattern| p@),
    {
        FileChecker { src_dir, dest_dir, required, exclude }
    }

    /// Whether `name` passes the hidden-file rule and every filter pattern.
    pub fn name_eligible(&self, name: &String) -> (r: bool)
        ensures
            r == eligible(self@.required, self@.exclude, name@),
    {
        let slice = name.as_str();
        if slice.unicode_len() > 0 && slice.get_char(0) == '.' {
            return false;
        }
        let mut i: usize = 0;
        while i < self.required.len()
            invariant
                0 <= i <= self.required@.len(),
                self@.required.len() == self.required@.len(),
                forall|j: int| 0 <= j < i ==> #[trigger] regex_accepts(self@.required[j], name@),
            decreases self.required@.len() - i,
        {
            if !self.required[i].is_match(name.as_str()) {
                proof {
                    assert(!regex_accepts(self@.required[i as int], name@));
                    assert(!matches_all(self@.required, name@));
                }
                return false;
            }
            i += 1;
        }
        let mut k: usize = 0;
        while k < self.exclude.len()
            invariant
                0 <= k <= self.exclude@.len(),
                self@.exclude.len() == self.exclude@.len(),
                matches_all(self@.required, name@),
                !hidden(name@),
                forall|j: int| 0 <= j < k ==> !#[trigger] regex_accepts(self@.exclude[j], name@),
            decreases self.exclude@.len() - k,
        {
            if self.exclude[k].is_match(name.as_str()) {
                proof {
                    assert(regex_accepts(self@.exclude[k as int], name@));
                    assert(!matches_none(self@.exclude, name@));
                }
                return false;
            }
            k += 1;
        }
        true
    }

    /// Keep the entries whose filenames are eligible, in listing order.
    pub fn filter_entries(&self, entries: &Vec<ListedFile>) -> (r: Vec<ListedFile>)
        ensures
            entry_views(r@) == kept_entries(self@.required, self@.exclude, entry_views(entries@)),
    {
        let ghost ev = entry_views(entries@);
        let mut out: Vec<ListedFile> = Vec::new();
        let mut i: usize = 0;
        while i < entries.len()
            invariant
                0 <= i <= entries@.len(),
                ev == entry_views(entries@),
                entry_views(out@) == kept_entries(
                    self@.required,
                    self@.exclude,
                    ev.subrange(0, i as int),
                ),
            decreases entries@.len() - i,
        {
            let ghost prefix = ev.subrange(0, i as int);
            let entry = &entries[i];
            proof {
                assert(ev[i as int] == entry@);
            }
            if self.name_eligible(&entry.file.filename) {
                let ghost old_out = out@;
                let pushed = ListedFile { file: entry.file.duplicate(), size: entry.size };
                let ghost pushed_entry = pushed;
                out.push(pushed);
                proof {
                    lemma_filter_push(prefix, ev[i as int], eligible_pred(self@.required, self@.exclude));
                    lemma_entry_views_push(old_out, pushed_entry);
                    assert(pushed_entry@ == ev[i as int]);
                }
            } else {
                proof {
                    lemma_filter_push(prefix, ev[i as int], eligible_pred(self@.required, self@.exclude));
                }
            }
            proof {
                assert(ev.subrange(0, i + 1) =~= prefix.push(ev[i as int]));
            }
            i += 1;
        }
        proof {
            assert(ev.subrange(0, ev.len() as int) =~= ev);
        }
        out
    }

    /// One reconciliation pass over the two listings: filter both sides,
    /// surface fatal listing failures, and classify the survivors.
    pub fn get_list_of_files(&self, src: DirListing, dest: DirListing) -> (r: Result<
        FileCheckResults,
        EngineError,
    >)
        requires
            src matches DirListing::Opened { entries, .. } ==> unique_names(entry_views(entries@)),
            dest matches DirListing::Opened { entries, .. } ==> unique_names(
                entry_views(entries@),
            ),
        ensures
            (src is Failed || dest is Failed) ==> (r matches Err(e) && str_views(e.source_errors@)
                == src.open_error_views() && str_views(e.dest_errors@)
                == dest.open_error_views()),
            src matches DirListing::Opened { entries: se, errors: serr }
                ==> dest matches DirListing::Opened { entries: de, errors: derr } ==> ({
                let sk = kept_entries(self@.required, self@.exclude, entry_views(se@));
                let dk = kept_entries(self@.required, self@.exclude, entry_views(de@));
                let sfatal = sk.len() == 0 && serr@.len() > 0;
                let dfatal = dk.len() == 0 && derr@.len() > 0;
                &&& (r is Err <==> (sfatal || dfatal))
                &&& (r matches Err(e) ==> str_views(e.source_errors@) == (if sfatal {
                    str_views(serr@)
                } else {
                    Seq::<Seq<char>>::empty()
                }) && str_views(e.dest_errors@) == (if dfatal {
                    str_views(derr@)
                } else {
                    Seq::<Seq<char>>::empty()
                }))
                &&& (r matches Ok(results) ==> results@.to_add == adds_of(sk, dk)
                    && results@.to_delete == deletes_of(sk, dk) && results@.to_rewrite
                    == updates_of(sk, dk))
            }),
    {
        match (src, dest) {
            (
                DirListing::Opened { entries: se, errors: serr },
                DirListing::Opened { entries: de, errors: derr },
            ) => {
                let sk = self.filter_entries(&se);
                let dk = self.filter_entries(&de);
                let sfatal = sk.is_empty() && !serr.is_empty();
                let dfatal = dk.is_empty() && !derr.is_empty();
                if sfatal || dfatal {
                    let source_errors = if sfatal {
                        serr
                    } else {
                        Vec::new()
                    };
                    let dest_errors = if dfatal {
                        derr
                    } else {
                        Vec::new()
                    };
                    proof {
                        assert(str_views(Seq::<String>::empty()) =~= Seq::<Seq<char>>::empty());
                    }
                    Err(EngineError { source_errors, dest_errors })
                } else {
                    proof {
                        lemma_filter_unique_names(
                            entry_views(se@),
                            eligible_pred(self@.required, self@.exclude),
                        );
                        lemma_filter_unique_names(
                            entry_views(de@),
                            eligible_pred(self@.required, self@.exclude),
                        );
                    }
                    Ok(classify(&sk, &dk))
                }
            },
            (src_l, dest_l) => {
                let source_errors: Vec<String> = match src_l {
                    DirListing::Failed(msg) => {
                        let mut v: Vec<String> = Vec::new();
                        v.push(msg);
                        proof {
                            assert(str_views(v@) =~= src.open_error_views());
                        }
                        v
                    },
                    DirListing::Opened { .. } => {
                        proof {
                            assert(str_views(Seq::<String>::empty())
                                =~= Seq::<Seq<char>>::empty());
                        }
                        Vec::new()
                    },
                };
                let dest_errors: Vec<String> = match dest_l {
                    DirListing::Failed(msg) => {
                        let mut v: Vec<String> = Vec::new();
                        v.push(msg);
                        proof {
                            assert(str_views(v@) =~= dest.open_error_views());
                        }
                        v
                    },
                    DirListing::Opened { .. } => {
                        proof {
                            assert(str_views(Seq::<String>::empty())
                                =~= Seq::<Seq<char>>::empty());
                        }
                        Vec::new()
                    },
                };
                Err(EngineError { source_errors, dest_errors })
            },
        }
    }
}

} // verus!
