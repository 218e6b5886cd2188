//! Notes of an Obsidian vault: their frontmatter, titles, summaries and places.
//!
//! The reader does no file work itself: the caller reads a directory or a file
//! and hands over what it found; the reader decides what that means.
use vstd::prelude::*;
use crate::paths::{
    extension_of, extension_of_name, file_name, file_name_spec, is_hidden, is_hidden_name,
    is_markdown, is_markdown_name, join_path_spec, lemma_path_lt_asymmetric, path_join,
    path_less, path_lt, relative_to, spec_relative_to, stem_of, stem_of_name,
};
use crate::text::{
    chars_of, contains_spec, copy_range, decimal, find, first_occurrence, occurs_at, push_all,
    push_decimal, push_str, starts_with, starts_with_spec, string_from_chars, trim, trim_spec,
    trim_start, trim_start_spec, views,
};

verus! {

broadcast use vstd::seq_lib::group_to_multiset_ensures;

/// `serde_json::Value`, carried through as an opaque value.
#[verifier::external_type_specification]
#[verifier::external_body]
pub struct ExJsonValue(serde_json::Value);

/// The YAML block at the top of a note.
pub struct Frontmatter {
    pub title: Option<String>,
    pub tags: Vec<String>,
    /// Every other key of the block.
    pub extra: serde_json::Value,
}

/// A note with its body and frontmatter.
pub struct Note {
    /// The note's path relative to the vault root.
    pub path: String,
    pub title: String,
    /// The body: the text after the frontmatter, or the whole text.
    pub content: String,
    pub frontmatter: Option<Frontmatter>,
}

/// A note's path, title and tags.
pub struct NoteSummary {
    pub path: String,
    pub title: String,
    pub tags: Vec<String>,
}

/// Reads notes under a root directory.
pub struct VaultReader {
    root: String,
}

/// How a note's text divides around its frontmatter fence.
pub enum FrontmatterSplit {
    /// No fenced block: the text (with leading white space removed) is all body.
    Plain { text: String },
    /// A fenced block `yaml` and the `body` after it; `text` is the whole text
    /// with leading white space removed, the body in case `yaml` does not parse.
    Fenced { yaml: String, body: String, text: String },
}

/// The fenced YAML block of a text that has no leading white space, and the
/// trimmed body after it: a text that starts with `---` and holds `\n---`
/// after that.
pub open spec fn fenced_parts(t: Seq<char>) -> Option<(Seq<char>, Seq<char>)> {
    if starts_with_spec(t, "---"@) {
        let a = t.skip("---"@.len() as int);
        if contains_spec(a, "\n---"@) {
            let e = first_occurrence(a, "\n---"@);
            Some((a.take(e), trim_spec(a.skip(e + "\n---"@.len()))))
        } else {
            None
        }
    } else {
        None
    }
}

/// What `split_frontmatter` gives for a note's text.
pub open spec fn split_matches(content: Seq<char>, r: FrontmatterSplit) -> bool {
    let t = trim_start_spec(content);
    match fenced_parts(t) {
        Some((yaml, body)) => r matches FrontmatterSplit::Fenced { yaml: y, body: b, text: x }
            && y@ == yaml && b@ == body && x@ == t,
        None => r matches FrontmatterSplit::Plain { text: x } && x@ == t,
    }
}

/// Finds the frontmatter fence of a note: after leading white space, a `---`
/// line opens the block and the next `\n---` closes it.
pub fn split_frontmatter(content: &str) -> (r: FrontmatterSplit)
    ensures
        split_matches(content@, r),
{
    let cs = chars_of(content);
    let t = trim_start(&cs);
    let text = string_from_chars(&t);
    let fence = chars_of("---");
    if !starts_with(&t, &fence) {
        return FrontmatterSplit::Plain { text };
    }
    let a = copy_range(&t, fence.len(), t.len());
    let marker = chars_of("\n---");
    match find(&a, &marker) {
        None => FrontmatterSplit::Plain { text },
        Some(e) => {
            let y = copy_range(&a, 0, e);
            let rest = copy_range(&a, e + marker.len(), a.len());
            assert(rest@ == a@.skip(e + "\n---"@.len()));
            assert(y@ == a@.take(e as int));
            let b = trim(&rest);
            FrontmatterSplit::Fenced {
                yaml: string_from_chars(&y),
                body: string_from_chars(&b),
                text,
            }
        },
    }
}

/// The frontmatter and body of a note, given how its text divides and whether
/// its YAML block parsed: a block that does not parse leaves the note without
/// frontmatter and with its whole text as body.
pub open spec fn resolved(split: FrontmatterSplit, parsed: Option<Frontmatter>) -> (
    Option<Frontmatter>,
    Seq<char>,
) {
    match split {
        FrontmatterSplit::Plain { text } => (None, text@),
        FrontmatterSplit::Fenced { yaml, body, text } => match parsed {
            Some(fm) => (Some(fm), body@),
            None => (None, text@),
        },
    }
}

/// The frontmatter and body of a note, from its split text and the outcome of
/// parsing its YAML block (`None` where it did not parse or there was none).
pub fn resolve_frontmatter(split: FrontmatterSplit, parsed: Option<Frontmatter>) -> (r: (
    Option<Frontmatter>,
    String,
))
    ensures
        r.0 == resolved(split, parsed).0,
        r.1@ == resolved(split, parsed).1,
{
    match split {
        FrontmatterSplit::Plain { text } => (None, text),
        FrontmatterSplit::Fenced { yaml, body, text } => match parsed {
            Some(fm) => (Some(fm), body),
            None => (None, text),
        },
    }
}

/// The stem of the file a path names, or nothing.
pub open spec fn path_stem(path: Seq<char>) -> Seq<char> {
    match file_name_spec(path) {
        Some(n) => stem_of_name(n),
        None => Seq::empty(),
    }
}

/// A note's title: the frontmatter's `title`, else the stem of its file name.
pub open spec fn title_spec(fm: Option<Frontmatter>, path: Seq<char>) -> Seq<char> {
    match fm {
        Some(f) => match f.title {
            Some(t) => t@,
            None => path_stem(path),
        },
        None => path_stem(path),
    }
}

/// A note's tags: the frontmatter's, else none.
pub open spec fn tags_spec(fm: Option<Frontmatter>) -> Seq<Seq<char>> {
    match fm {
        Some(f) => views(f.tags@),
        None => Seq::empty(),
    }
}

/// A copy of a list of strings.
pub fn clone_strings(v: &Vec<String>) -> (r: Vec<String>)
    ensures
        r@ == v@,
{
    let mut r: Vec<String> = Vec::new();
    let n = v.len();
    let mut i: usize = 0;
    while i < n
        invariant
            n == v@.len(),
            i <= n,
            r@ == v@.take(i as int),
        decreases n - i,
    {
        r.push(v[i].clone());
        i = i + 1;
        assert(r@ == v@.take(i as int));
    }
    assert(v@.take(n as int) == v@);
    r
}

/// The stem of the file that `path` names, or the empty string.
pub fn stem_of_path(path: &str) -> (r: String)
    ensures
        r@ == path_stem(path@),
{
    let cs = chars_of(path);
    match file_name(&cs) {
        Some(n) => {
            let s = stem_of(&n);
            string_from_chars(&s)
        },
        None => String::new(),
    }
}

/// A note's title, from its frontmatter and its path.
pub fn note_title(fm: &Option<Frontmatter>, path: &str) -> (r: String)
    ensures
        r@ == title_spec(*fm, path@),
{
    match fm {
        Some(f) => match &f.title {
            Some(t) => t.clone(),
            None => stem_of_path(path),
        },
        None => stem_of_path(path),
    }
}

/// A note's tags, from its frontmatter.
pub fn note_tags(fm: &Option<Frontmatter>) -> (r: Vec<String>)
    ensures
        views(r@) == tags_spec(*fm),
{
    match fm {
        Some(f) => clone_strings(&f.tags),
        None => Vec::new(),
    }
}

/// The summaries ordered by path, each path not before the one ahead of it.
pub open spec fn sorted_by_path(v: Seq<NoteSummary>) -> bool {
    forall|i: int| 0 < i < v.len() ==> !path_lt(#[trigger] v[i].path@, v[i - 1].path@)
}

/// No summary of a sorted list has a path before that of one ahead of it.
pub proof fn lemma_sorted_by_path_pair(v: Seq<NoteSummary>, i: int, j: int)
    requires
        sorted_by_path(v),
        0 <= i < j < v.len(),
    ensures
        !path_lt(v[j].path@, v[i].path@),
    decreases j - i,
{
    if j > i + 1 {
        lemma_sorted_by_path_pair(v, i, j - 1);
        crate::paths::lemma_path_le_transitive(v[i].path@, v[j - 1].path@, v[j].path@);
    }
}

/// Where a stable sort places a summary with path `x` among the sorted `r`:
/// after every summary whose path is not after `x`, before the first whose
/// path is.
pub open spec fn path_insert_pos(r: Seq<NoteSummary>, x: Seq<char>) -> nat
    decreases r.len(),
{
    if r.len() == 0 {
        0
    } else if path_lt(x, r[0].path@) {
        0
    } else {
        1 + path_insert_pos(r.drop_first(), x)
    }
}

/// The summaries sorted by path, summaries of equal paths in the order given:
/// each summary in turn placed after those before it whose path is not after
/// its own.
pub open spec fn stable_sort_by_path(v: Seq<NoteSummary>) -> Seq<NoteSummary>
    decreases v.len(),
{
    if v.len() == 0 {
        Seq::empty()
    } else {
        let r = stable_sort_by_path(v.drop_last());
        r.insert(path_insert_pos(r, v.last().path@) as int, v.last())
    }
}

proof fn lemma_path_insert_pos(r: Seq<NoteSummary>, x: Seq<char>)
    ensures
        path_insert_pos(r, x) <= r.len(),
        forall|j: int| 0 <= j < path_insert_pos(r, x) ==> !path_lt(x, #[trigger] r[j].path@),
        path_insert_pos(r, x) < r.len() ==> path_lt(x, r[path_insert_pos(r, x) as int].path@),
    decreases r.len(),
{
    if r.len() > 0 && !path_lt(x, r[0].path@) {
        lemma_path_insert_pos(r.drop_first(), x);
        assert forall|j: int| 0 <= j < path_insert_pos(r, x) implies !path_lt(
            x,
            #[trigger] r[j].path@,
        ) by {
            if j > 0 {
                assert(r[j] == r.drop_first()[j - 1]);
            }
        }
    }
}

#[verifier::spinoff_prover]
proof fn lemma_insert_keeps_sorted_by_path(r: Seq<NoteSummary>, x: NoteSummary)
    requires
        sorted_by_path(r),
    ensures
        sorted_by_path(r.insert(path_insert_pos(r, x.path@) as int, x)),
{
    let p = path_insert_pos(r, x.path@) as int;
    lemma_path_insert_pos(r, x.path@);
    if p < r.len() {
        lemma_path_lt_asymmetric(x.path@, r[p].path@);
    }
    let s = r.insert(p, x);
    assert forall|i: int| 0 < i < s.len() implies !path_lt(#[trigger] s[i].path@, s[i - 1].path@) by {
        if i < p {
            assert(s[i] == r[i] && s[i - 1] == r[i - 1]);
        } else if i == p {
            assert(s[i - 1] == r[i - 1]);
        } else if i == p + 1 {
            assert(s[i] == r[p]);
        } else {
            assert(s[i] == r[i - 1] && s[i - 1] == r[i - 2]);
        }
    }
}

/// A listing holds exactly the notes it was given, ordered by path.
pub proof fn lemma_stable_sort_by_path(v: Seq<NoteSummary>)
    ensures
        stable_sort_by_path(v).to_multiset() == v.to_multiset(),
        sorted_by_path(stable_sort_by_path(v)),
    decreases v.len(),
{
    if v.len() > 0 {
        let r = stable_sort_by_path(v.drop_last());
        lemma_stable_sort_by_path(v.drop_last());
        lemma_insert_keeps_sorted_by_path(r, v.last());
        lemma_path_insert_pos(r, v.last().path@);
        let p = path_insert_pos(r, v.last().path@) as int;
        assert(stable_sort_by_path(v) == r.insert(p, v.last()));
        assert(r.insert(p, v.last()).to_multiset() == r.to_multiset().insert(v.last()));
        assert(v.drop_last().push(v.last()) == v);
        assert(v.drop_last().push(v.last()).to_multiset() == v.drop_last().to_multiset().insert(
            v.last(),
        ));
    }
}

/// Sorts summaries by path in the order of `path_lt`, keeping summaries of equal
/// paths in the order given.
pub fn sort_by_path(v: Vec<NoteSummary>) -> (r: Vec<NoteSummary>)
    ensures
        r@ == stable_sort_by_path(v@),
        r@.to_multiset() == v@.to_multiset(),
        sorted_by_path(r@),
{
    let ghost all = v@;
    let mut rest = v;
    let mut r: Vec<NoteSummary> = Vec::new();
    let ghost mut i: int = 0;
    assert(all.take(0) == Seq::<NoteSummary>::empty());
    assert(all.skip(0) == all);
    while rest.len() > 0
        invariant
            0 <= i <= all.len(),
            rest@ == all.skip(i),
            r@ == stable_sort_by_path(all.take(i)),
            r@.to_multiset().add(rest@.to_multiset()) == all.to_multiset(),
            sorted_by_path(r@),
        decreases rest@.len(),
    {
        let ghost before_rest = rest@;
        let x = rest.remove(0);
        assert(before_rest.remove(0).to_multiset() == before_rest.to_multiset().remove(x));
        assert(x == all[i]);
        assert(rest@ == all.skip(i + 1));
        let mut p: usize = 0;
        assert(r@.skip(0) == r@);
        while p < r.len() && !path_less(x.path.as_str(), r[p].path.as_str())
            invariant
                p <= r@.len(),
                forall|j: int| 0 <= j < p ==> !path_lt(x.path@, #[trigger] r@[j].path@),
                path_insert_pos(r@, x.path@) == p + path_insert_pos(r@.skip(p as int), x.path@),
            decreases r@.len() - p,
        {
            assert(r@.skip(p as int)[0] == r@[p as int]);
            assert(r@.skip(p as int).drop_first() == r@.skip(p + 1));
            p = p + 1;
        }
        proof {
            if p < r@.len() {
                assert(r@.skip(p as int)[0] == r@[p as int]);
            }
            assert(path_insert_pos(r@, x.path@) == p);
            assert(all.take(i + 1).drop_last() == all.take(i));
            assert(all.take(i + 1).last() == x);
        }
        proof {
            if p < r@.len() {
                lemma_path_lt_asymmetric(x.path@, r@[p as int].path@);
            }
        }
        let ghost before = r@;
        r.insert(p, x);
        assert(r@ == before.insert(p as int, x));
        assert(sorted_by_path(r@)) by {
            assert forall|i: int| 0 < i < r@.len() implies !path_lt(
                #[trigger] r@[i].path@,
                r@[i - 1].path@,
            ) by {
                if i < p {
                } else if i == p {
                    assert(r@[i - 1] == before[i - 1]);
                } else if i == p + 1 {
                    assert(r@[i] == before[p as int]);
                } else {
                    assert(r@[i] == before[i - 1] && r@[i - 1] == before[i - 2]);
                }
            }
        }
        proof {
            i = i + 1;
        }
    }
    assert(rest@.to_multiset() =~= vstd::multiset::Multiset::empty());
    assert(all.take(i) == all);
    r
}

} // verus!

verus! {

impl VaultReader {
    /// The vault's root directory.
    pub closed spec fn root_view(&self) -> Seq<char> {
        self.root@
    }

    /// A reader of the vault rooted at `root`.
    pub fn new(root: String) -> (r: VaultReader)
        ensures
            r.root_view() == root@,
    {
        VaultReader { root }
    }

    /// The vault's root directory.
    pub fn root(&self) -> (r: &str)
        ensures
            r@ == self.root_view(),
    {
        self.root.as_str()
    }

    /// The file a path relative to the root names: `root.join(relative_path)`.
    pub fn note_path(&self, relative_path: &str) -> (r: String)
        ensures
            r@ == join_path_spec(self.root_view(), relative_path@),
    {
        path_join(self.root.as_str(), relative_path)
    }

    /// The directory a listing searches: the root, or `folder` under it.
    pub fn search_dir(&self, folder: Option<&str>) -> (r: String)
        ensures
            r@ == match folder {
                Some(f) => join_path_spec(self.root_view(), f@),
                None => self.root_view(),
            },
    {
        match folder {
            Some(f) => path_join(self.root.as_str(), f),
            None => self.root.clone(),
        }
    }

    /// The folder count of `list_folders`: it starts at the searched directory,
    /// whose folder name is `folder` as given, or empty for the root.
    pub fn folder_walk(&self, folder: Option<&str>) -> (r: FolderWalk)
        ensures
            r.pending_view() == seq![
                (
                    match folder {
                        Some(f) => join_path_spec(self.root_view(), f@),
                        None => self.root_view(),
                    },
                    match folder {
                        Some(f) => f@,
                        None => Seq::<char>::empty(),
                    },
                ),
            ],
            r.folders_view() == Seq::<(Seq<char>, nat)>::empty(),
    {
        let dir = self.search_dir(folder);
        let prefix = match folder {
            Some(f) => f.to_string(),
            None => String::new(),
        };
        FolderWalk::new(dir, prefix)
    }

    /// The note stored at `path` (a full path), from how its text divides and
    /// the outcome of parsing its YAML block.
    pub fn note_at(&self, path: &str, split: FrontmatterSplit, parsed: Option<Frontmatter>) -> (r:
        Note)
        ensures
            r.path@ == spec_relative_to(path@, self.root_view()),
            r.frontmatter == resolved(split, parsed).0,
            r.content@ == resolved(split, parsed).1,
            r.title@ == title_spec(resolved(split, parsed).0, path@),
    {
        let (frontmatter, content) = resolve_frontmatter(split, parsed);
        let title = note_title(&frontmatter, path);
        Note { path: relative_to(path, self.root.as_str()), title, content, frontmatter }
    }

    /// The note at `relative_path`, whose text divides as `split` and whose YAML
    /// block parsed to `parsed`.
    pub fn read_note(&self, relative_path: &str, split: FrontmatterSplit, parsed: Option<
        Frontmatter,
    >) -> (r: Note)
        ensures
            ({
                let path = join_path_spec(self.root_view(), relative_path@);
                &&& r.path@ == spec_relative_to(path, self.root_view())
                &&& r.frontmatter == resolved(split, parsed).0
                &&& r.content@ == resolved(split, parsed).1
                &&& r.title@ == title_spec(resolved(split, parsed).0, path)
            }),
    {
        let path = self.note_path(relative_path);
        self.note_at(path.as_str(), split, parsed)
    }

    /// The note just written to `relative_path`: the same as reading it back.
    pub fn write_note(&self, relative_path: &str, split: FrontmatterSplit, parsed: Option<
        Frontmatter,
    >) -> (r: Note)
        ensures
            ({
                let path = join_path_spec(self.root_view(), relative_path@);
                &&& r.path@ == spec_relative_to(path, self.root_view())
                &&& r.frontmatter == resolved(split, parsed).0
                &&& r.content@ == resolved(split, parsed).1
                &&& r.title@ == title_spec(resolved(split, parsed).0, path)
            }),
    {
        self.read_note(relative_path, split, parsed)
    }

    /// The summary of the note stored at `path` (a full path).
    pub fn note_summary(&self, path: &str, split: FrontmatterSplit, parsed: Option<Frontmatter>) -> (r:
        NoteSummary)
        ensures
            r.path@ == spec_relative_to(path@, self.root_view()),
            r.title@ == title_spec(resolved(split, parsed).0, path@),
            views(r.tags@) == tags_spec(resolved(split, parsed).0),
    {
        let (frontmatter, _body) = resolve_frontmatter(split, parsed);
        let title = note_title(&frontmatter, path);
        let tags = note_tags(&frontmatter);
        NoteSummary { path: relative_to(path, self.root.as_str()), title, tags }
    }

    /// The summary of the note at `relative_path`.
    pub fn note_metadata(&self, relative_path: &str, split: FrontmatterSplit, parsed: Option<
        Frontmatter,
    >) -> (r: NoteSummary)
        ensures
            ({
                let path = join_path_spec(self.root_view(), relative_path@);
                &&& r.path@ == spec_relative_to(path, self.root_view())
                &&& r.title@ == title_spec(resolved(split, parsed).0, path)
                &&& views(r.tags@) == tags_spec(resolved(split, parsed).0)
            }),
    {
        let path = self.note_path(relative_path);
        self.note_summary(path.as_str(), split, parsed)
    }

    /// The listing of the notes found under the searched directory: the same
    /// notes, ordered by path, notes of equal paths in the order found.
    pub fn list_notes(&self, found: Vec<NoteSummary>) -> (r: Vec<NoteSummary>)
        ensures
            r@ == stable_sort_by_path(found@),
            r@.to_multiset() == found@.to_multiset(),
            sorted_by_path(r@),
            forall|i: int, j: int|
                0 <= i < j < r@.len() ==> !path_lt(#[trigger] r@[j].path@, #[trigger] r@[i].path@),
    {
        let r = sort_by_path(found);
        proof {
            assert forall|i: int, j: int| 0 <= i < j < r@.len() implies !path_lt(
                #[trigger] r@[j].path@,
                #[trigger] r@[i].path@,
            ) by {
                lemma_sorted_by_path_pair(r@, i, j);
            }
        }
        r
    }
}

/// An entry of a directory: its file name and whether it is a directory.
pub struct DirEntryInfo {
    pub name: String,
    pub is_dir: bool,
}

/// What a listing does with an entry of a directory it walks.
#[derive(PartialEq, Eq, Structural, Clone, Copy)]
pub enum WalkStep {
    Skip,
    /// Walk into this directory.
    Descend,
    /// Read this file's summary.
    ReadNote,
}

/// A listing walks into directories that are not hidden and reads the files
/// whose extension is `md`, hidden or not.
pub open spec fn walk_step_spec(e: DirEntryInfo) -> WalkStep {
    if e.is_dir {
        if is_hidden_name(e.name@) { WalkStep::Skip } else { WalkStep::Descend }
    } else if is_markdown_name(e.name@) {
        WalkStep::ReadNote
    } else {
        WalkStep::Skip
    }
}

/// What a listing does with a directory entry.
pub fn walk_step(e: &DirEntryInfo) -> (r: WalkStep)
    ensures
        r == walk_step_spec(*e),
{
    let n = chars_of(e.name.as_str());
    if e.is_dir {
        if is_hidden(&n) { WalkStep::Skip } else { WalkStep::Descend }
    } else if is_markdown(&n) {
        WalkStep::ReadNote
    } else {
        WalkStep::Skip
    }
}

/// A directory a listing is reading: where it is, its entries, and how many
/// of them it has looked at.
struct WalkFrame {
    dir: String,
    entries: Vec<DirEntryInfo>,
    next: usize,
}

/// What a listing does next.
pub enum WalkAction {
    /// Read the entries of this directory and enter it.
    ReadDir(String),
    /// Read the summary of the note at this path.
    ReadNote(String),
    /// Nothing outside: step on.
    Nothing,
    /// The listing has looked at every entry.
    Done,
}

/// A listing's walk in progress: the directories it is reading, the
/// innermost last. It looks at the entries of a directory in the order
/// given, and finishes a subdirectory, with all under it, before the entry
/// after it: the order of a depth-first walk.
pub struct NoteWalk {
    frames: Vec<WalkFrame>,
}

/// One step of a listing's walk, from the directories being read `before`
/// to those being read `after`, with the action `r`: with nothing left, it is
/// done; a directory whose entries are all looked at is left; otherwise the
/// next entry of the innermost directory is looked at, and a subdirectory
/// to walk into or a note to read at its place is the action.
pub open spec fn walk_transition(
    before: Seq<(Seq<char>, Seq<DirEntryInfo>, nat)>,
    after: Seq<(Seq<char>, Seq<DirEntryInfo>, nat)>,
    r: WalkAction,
) -> bool {
    if before.len() == 0 {
        r is Done && after == before
    } else {
        let top = before.last();
        if top.2 >= top.1.len() {
            r is Nothing && after == before.drop_last()
        } else {
            let e = top.1[top.2 as int];
            let place = join_path_spec(top.0, e.name@);
            &&& after == before.drop_last().push((top.0, top.1, top.2 + 1))
            &&& match walk_step_spec(e) {
                WalkStep::Descend => r matches WalkAction::ReadDir(p) && p@ == place,
                WalkStep::ReadNote => r matches WalkAction::ReadNote(p) && p@ == place,
                WalkStep::Skip => r is Nothing,
            }
        }
    }
}

impl NoteWalk {
    #[verifier::type_invariant]
    spec fn frames_in_bounds(self) -> bool {
        forall|i: int|
            0 <= i < self.frames@.len() ==> #[trigger] self.frames@[i].next
                <= self.frames@[i].entries@.len()
    }

    /// The directories being read, innermost last: each one's place, its
    /// entries and how many of them have been looked at.
    pub closed spec fn frames_view(&self) -> Seq<(Seq<char>, Seq<DirEntryInfo>, nat)> {
        self.frames@.map_values(|f: WalkFrame| (f.dir@, f.entries@, f.next as nat))
    }

    /// A walk that reads no directory yet.
    pub fn new() -> (r: NoteWalk)
        ensures
            r.frames_view() == Seq::<(Seq<char>, Seq<DirEntryInfo>, nat)>::empty(),
    {
        let r = NoteWalk { frames: Vec::new() };
        assert(r.frames_view() =~= Seq::<(Seq<char>, Seq<DirEntryInfo>, nat)>::empty());
        r
    }

    /// Enters the directory at `dir`, whose entries are `entries`: its
    /// entries are looked at next, from the first.
    pub fn enter(&mut self, dir: String, entries: Vec<DirEntryInfo>)
        ensures
            final(self).frames_view() == old(self).frames_view().push((dir@, entries@, 0nat)),
    {
        proof {
            use_type_invariant(&*self);
        }
        let ghost d = dir@;
        let ghost es = entries@;
        let mut frames: Vec<WalkFrame> = Vec::new();
        std::mem::swap(&mut frames, &mut self.frames);
        frames.push(WalkFrame { dir, entries, next: 0 });
        self.frames = frames;
        assert(self.frames_view() =~= old(self).frames_view().push((d, es, 0nat)));
    }

    /// Takes one step of the walk (see `walk_transition`).
    pub fn step(&mut self) -> (r: WalkAction)
        ensures
            walk_transition(old(self).frames_view(), final(self).frames_view(), r),
    {
        proof {
            use_type_invariant(&*self);
        }
        let ghost before = self.frames@;
        let mut frames: Vec<WalkFrame> = Vec::new();
        std::mem::swap(&mut frames, &mut self.frames);
        assert(frames@ == before);
        match frames.pop() {
            None => {
                self.frames = frames;
                assert(self.frames_view() =~= old(self).frames_view());
                WalkAction::Done
            },
            Some(f) => {
                assert(f == before.last());
                assert(before.drop_last() == frames@);
                assert(f.next <= f.entries@.len());
                if f.next >= f.entries.len() {
                    self.frames = frames;
                    assert(self.frames_view() =~= old(self).frames_view().drop_last());
                    WalkAction::Nothing
                } else {
                    let i = f.next;
                    let place = path_join(f.dir.as_str(), f.entries[i].name.as_str());
                    let s = walk_step(&f.entries[i]);
                    let ghost rest = frames@;
                    let WalkFrame { dir, entries, next: _ } = f;
                    let ghost d = dir@;
                    let ghost es = entries@;
                    frames.push(WalkFrame { dir, entries, next: i + 1 });
                    assert(frames@ == rest.push(frames@.last()));
                    self.frames = frames;
                    assert(self.frames_view() =~= old(self).frames_view().drop_last().push(
                        (d, es, (i + 1) as nat),
                    ));
                    match s {
                        WalkStep::Descend => WalkAction::ReadDir(place),
                        WalkStep::ReadNote => WalkAction::ReadNote(place),
                        WalkStep::Skip => WalkAction::Nothing,
                    }
                }
            },
        }
    }
}

/// An entry that folder counting counts as a note: not hidden, not a
/// directory, with extension `md`.
pub open spec fn counts_as_note(e: DirEntryInfo) -> bool {
    !is_hidden_name(e.name@) && !e.is_dir && is_markdown_name(e.name@)
}

/// An entry that folder counting descends into: a directory that is not hidden.
pub open spec fn counts_as_folder(e: DirEntryInfo) -> bool {
    !is_hidden_name(e.name@) && e.is_dir
}

/// The number of entries counted as notes.
pub open spec fn note_count_spec(es: Seq<DirEntryInfo>) -> nat
    decreases es.len(),
{
    if es.len() == 0 {
        0
    } else {
        note_count_spec(es.drop_last()) + if counts_as_note(es.last()) { 1nat } else { 0nat }
    }
}

/// The indices, in order, of the entries counted as folders.
pub open spec fn folder_indices(es: Seq<DirEntryInfo>) -> Seq<usize>
    decreases es.len(),
{
    if es.len() == 0 {
        Seq::empty()
    } else if counts_as_folder(es.last()) {
        folder_indices(es.drop_last()).push((es.len() - 1) as usize)
    } else {
        folder_indices(es.drop_last())
    }
}

/// What counting the notes of one directory finds.
pub struct FolderScan {
    /// The directory's notes, not counting those of its subdirectories.
    pub note_count: usize,
    /// The indices of the subdirectories to count next, in the order given.
    pub subdirs: Vec<usize>,
    /// The directory's line of the folder list, if it has one.
    pub record: Option<(String, usize)>,
}

/// Counts the notes of a directory whose folder name is `prefix`: a
/// directory is listed when it holds a note or a subdirectory to count.
pub fn scan_folder(prefix: &str, entries: &Vec<DirEntryInfo>) -> (r: FolderScan)
    ensures
        r.note_count == note_count_spec(entries@),
        r.subdirs@ == folder_indices(entries@),
        r.record is Some <==> (r.note_count > 0 || r.subdirs@.len() > 0),
        r.record matches Some(rec) ==> rec.0@ == prefix@ && rec.1 == r.note_count,
{
    let mut count: usize = 0;
    let mut subdirs: Vec<usize> = Vec::new();
    let n = entries.len();
    let mut i: usize = 0;
    while i < n
        invariant
            n == entries@.len(),
            i <= n,
            count == note_count_spec(entries@.take(i as int)),
            count <= i,
            subdirs@ == folder_indices(entries@.take(i as int)),
        decreases n - i,
    {
        assert(entries@.take(i + 1).drop_last() == entries@.take(i as int));
        assert(entries@.take(i + 1).last() == entries@[i as int]);
        let name = chars_of(entries[i].name.as_str());
        let hidden = is_hidden(&name);
        if !hidden && entries[i].is_dir {
            subdirs.push(i);
        } else if !hidden && !entries[i].is_dir && is_markdown(&name) {
            count = count + 1;
        }
        i = i + 1;
    }
    assert(entries@.take(n as int) == entries@);
    let record = if count > 0 || subdirs.len() > 0 {
        Some((prefix.to_string(), count))
    } else {
        None
    };
    FolderScan { note_count: count, subdirs, record }
}

proof fn lemma_folder_indices_bounded(es: Seq<DirEntryInfo>)
    ensures
        forall|j: int|
            0 <= j < folder_indices(es).len() ==> (#[trigger] folder_indices(es)[j]) < es.len(),
    decreases es.len(),
{
    if es.len() > 0 {
        let d = es.drop_last();
        lemma_folder_indices_bounded(d);
        assert forall|j: int| 0 <= j < folder_indices(es).len() implies (#[trigger] folder_indices(
            es,
        )[j]) < es.len() by {
            if counts_as_folder(es.last()) {
                if j < folder_indices(d).len() {
                    assert(folder_indices(es)[j] == folder_indices(d)[j]);
                }
            } else {
                assert(folder_indices(es)[j] == folder_indices(d)[j]);
            }
        }
    }
}

/// The folder name of a subdirectory: its name under the root, else
/// `prefix/name`.
pub open spec fn sub_prefix_spec(prefix: Seq<char>, name: Seq<char>) -> Seq<char> {
    if prefix.len() == 0 {
        name
    } else {
        prefix + seq!['/'] + name
    }
}

/// The folder name of the subdirectory `name` of the folder `prefix`.
pub fn sub_prefix(prefix: &str, name: &str) -> (r: String)
    ensures
        r@ == sub_prefix_spec(prefix@, name@),
{
    let p = chars_of(prefix);
    let mut out: Vec<char> = Vec::new();
    if p.len() > 0 {
        push_all(&mut out, &p);
        out.push('/');
    }
    push_str(&mut out, name);
    string_from_chars(&out)
}

/// A directory the folder count has still to look at: where it is, and its
/// folder name.
pub struct PendingFolder {
    pub dir: String,
    pub prefix: String,
}

/// The places and folder names of the subdirectories that counting the
/// directory `dir`, named `prefix`, descends into, in the order of `entries`.
pub open spec fn subfolders(dir: Seq<char>, prefix: Seq<char>, entries: Seq<DirEntryInfo>) -> Seq<
    (Seq<char>, Seq<char>),
> {
    folder_indices(entries).map_values(
        |i: usize|
            (
                join_path_spec(dir, entries[i as int].name@),
                sub_prefix_spec(prefix, entries[i as int].name@),
            ),
    )
}

/// The line that counting a directory named `prefix` adds to the folder list:
/// one where it holds a note or a subdirectory to count, none otherwise.
pub open spec fn folder_record(prefix: Seq<char>, entries: Seq<DirEntryInfo>) -> Seq<
    (Seq<char>, nat),
> {
    if note_count_spec(entries) > 0 || folder_indices(entries).len() > 0 {
        seq![(prefix, note_count_spec(entries))]
    } else {
        Seq::empty()
    }
}

/// A folder count in progress: the directories still to look at, the last
/// one next, and the folder list so far. Counting a directory records it
/// before any of its subdirectories, and finishes a subdirectory, with all
/// under it, before the next one: the order of a depth-first walk.
pub struct FolderWalk {
    pending: Vec<PendingFolder>,
    folders: Vec<(String, usize)>,
}

impl FolderWalk {
    /// The directories still to look at, as places and folder names; the last
    /// is looked at next.
    pub closed spec fn pending_view(&self) -> Seq<(Seq<char>, Seq<char>)> {
        self.pending@.map_values(|p: PendingFolder| (p.dir@, p.prefix@))
    }

    /// The folder list so far: folder names and note counts.
    pub closed spec fn folders_view(&self) -> Seq<(Seq<char>, nat)> {
        self.folders@.map_values(|f: (String, usize)| (f.0@, f.1 as nat))
    }

    /// A folder count that starts at the directory `dir`, named `prefix`.
    pub fn new(dir: String, prefix: String) -> (r: FolderWalk)
        ensures
            r.pending_view() == seq![(dir@, prefix@)],
            r.folders_view() == Seq::<(Seq<char>, nat)>::empty(),
    {
        let mut pending: Vec<PendingFolder> = Vec::new();
        pending.push(PendingFolder { dir, prefix });
        let r = FolderWalk { pending, folders: Vec::new() };
        assert(r.pending_view() =~= seq![(dir@, prefix@)]);
        assert(r.folders_view() =~= Seq::<(Seq<char>, nat)>::empty());
        r
    }

    /// The directory to look at next, taken off the pending ones; none when
    /// the count is done.
    pub fn next(&mut self) -> (r: Option<PendingFolder>)
        ensures
            final(self).folders_view() == old(self).folders_view(),
            old(self).pending_view().len() == 0 ==> r is None && final(self).pending_view()
                == old(self).pending_view(),
            old(self).pending_view().len() > 0 ==> (r matches Some(p) && (p.dir@, p.prefix@)
                == old(self).pending_view().last() && final(self).pending_view() == old(
                self,
            ).pending_view().drop_last()),
    {
        let ghost before = self.pending@;
        let r = self.pending.pop();
        proof {
            if before.len() > 0 {
                assert(self.pending@ == before.drop_last());
                assert(self.pending_view() =~= old(self).pending_view().drop_last());
            }
        }
        r
    }

    /// Counts the directory `folder`, whose entries are `entries`: its line
    /// is added to the folder list where it has one, and its subdirectories
    /// are added to the pending ones so that the first of them is looked at
    /// next.
    pub fn visit(&mut self, folder: &PendingFolder, entries: &Vec<DirEntryInfo>)
        ensures
            final(self).folders_view() == old(self).folders_view() + folder_record(
                folder.prefix@,
                entries@,
            ),
            final(self).pending_view() == old(self).pending_view() + subfolders(
                folder.dir@,
                folder.prefix@,
                entries@,
            ).reverse(),
    {
        let scan = scan_folder(folder.prefix.as_str(), entries);
        let ghost f0 = self.folders@;
        match scan.record {
            Some(rec) => {
                self.folders.push(rec);
                assert(self.folders_view() =~= old(self).folders_view() + folder_record(
                    folder.prefix@,
                    entries@,
                ));
            },
            None => {
                assert(self.folders_view() =~= old(self).folders_view() + folder_record(
                    folder.prefix@,
                    entries@,
                ));
            },
        }
        let ghost subs = subfolders(folder.dir@, folder.prefix@, entries@);
        let ghost p0 = self.pending_view();
        proof {
            lemma_folder_indices_bounded(entries@);
        }
        let m = scan.subdirs.len();
        let mut k: usize = m;
        assert(p0 + subs.reverse().take(0) =~= p0);
        while k > 0
            invariant
                m == scan.subdirs@.len(),
                scan.subdirs@ == folder_indices(entries@),
                subs == subfolders(folder.dir@, folder.prefix@, entries@),
                subs.len() == m,
                forall|j: int| 0 <= j < m ==> (#[trigger] scan.subdirs@[j]) < entries@.len(),
                k <= m,
                self.pending_view() == p0 + subs.reverse().take(m - k),
                self.folders_view() == old(self).folders_view() + folder_record(
                    folder.prefix@,
                    entries@,
                ),
            decreases k,
        {
            let i = scan.subdirs[k - 1];
            let dir = path_join(folder.dir.as_str(), entries[i].name.as_str());
            let prefix = sub_prefix(folder.prefix.as_str(), entries[i].name.as_str());
            let ghost before = self.pending_view();
            self.pending.push(PendingFolder { dir, prefix });
            proof {
                assert(subs[k - 1] == (dir@, prefix@));
                assert(subs.reverse()[m - k] == subs[k - 1]);
                assert(subs.reverse().take(m - k + 1) =~= subs.reverse().take(m - k).push(
                    subs[k - 1],
                ));
                assert(self.pending_view() =~= before.push((dir@, prefix@)));
            }
            k = k - 1;
        }
        assert(subs.reverse().take(m as int) =~= subs.reverse());
    }

    /// The folder list the count has made.
    pub fn into_folders(self) -> (r: Vec<(String, usize)>)
        ensures
            r@.map_values(|f: (String, usize)| (f.0@, f.1 as nat)) == self.folders_view(),
    {
        self.folders
    }
}

} // verus!

verus! {

/// The file name of a path, or the empty name.
pub open spec fn file_name_or_empty(path: Seq<char>) -> Seq<char> {
    match file_name_spec(path) {
        Some(n) => n,
        None => Seq::empty(),
    }
}

/// `.ext` for a path with an extension, else nothing.
pub open spec fn dotted_extension(path: Seq<char>) -> Seq<char> {
    match file_name_spec(path) {
        Some(n) => match extension_of_name(n) {
            Some(e) => seq!['.'] + e,
            None => Seq::empty(),
        },
        None => Seq::empty(),
    }
}

/// The name that the `attempt`-th try gives a deleted note in the trash: its
/// own file name first, then `{stem}_{attempt}{.ext}`.
pub open spec fn trash_name_spec(path: Seq<char>, attempt: nat) -> Seq<char> {
    if attempt == 0 {
        file_name_or_empty(path)
    } else {
        path_stem(path) + seq!['_'] + decimal(attempt) + dotted_extension(path)
    }
}

impl VaultReader {
    /// The trash directory: `.trash` under the root.
    pub fn trash_dir(&self) -> (r: String)
        ensures
            r@ == join_path_spec(self.root_view(), ".trash"@),
    {
        path_join(self.root.as_str(), ".trash")
    }

    /// The place the `attempt`-th try moves the note at `relative_path` to;
    /// deleting a note tries `attempt` 0, 1, 2, ... until a place is free.
    pub fn trash_candidate(&self, relative_path: &str, attempt: usize) -> (r: String)
        ensures
            r@ == join_path_spec(
                join_path_spec(self.root_view(), ".trash"@),
                trash_name_spec(join_path_spec(self.root_view(), relative_path@), attempt as nat),
            ),
    {
        let path = self.note_path(relative_path);
        let pc = chars_of(path.as_str());
        let mut name: Vec<char> = Vec::new();
        let fname = file_name(&pc);
        if attempt == 0 {
            match fname {
                Some(n) => push_all(&mut name, &n),
                None => {},
            }
        } else {
            match &fname {
                Some(n) => {
                    let s = stem_of(n);
                    push_all(&mut name, &s);
                },
                None => {},
            }
            name.push('_');
            push_decimal(&mut name, attempt as u64);
            match &fname {
                Some(n) => match extension_of(n) {
                    Some(e) => {
                        name.push('.');
                        push_all(&mut name, &e);
                    },
                    None => {},
                },
                None => {},
            }
        }
        let name = string_from_chars(&name);
        let dir = self.trash_dir();
        path_join(dir.as_str(), name.as_str())
    }

    /// The path reported for a note moved to `trash_path`: relative to the root.
    pub fn trashed_path(&self, trash_path: &str) -> (r: String)
        ensures
            r@ == spec_relative_to(trash_path@, self.root_view()),
    {
        relative_to(trash_path, self.root.as_str())
    }

    /// The place the `attempt`-th try moves the note at `relative_path` to.
    pub open spec fn trash_place(&self, relative_path: Seq<char>, attempt: nat) -> Seq<char> {
        join_path_spec(
            join_path_spec(self.root_view(), ".trash"@),
            trash_name_spec(join_path_spec(self.root_view(), relative_path), attempt),
        )
    }

    /// The search for a free place in the trash, after looking at the place
    /// of try `attempt` (`place`): where that place is free the note moves
    /// there; where it is taken, the next try's place is looked at. The count
    /// of tries stops growing at `usize::MAX`.
    pub fn trash_step(&self, relative_path: &str, attempt: usize, place: String, taken: bool) -> (r:
        TrashStep)
        requires
            place@ == self.trash_place(relative_path@, attempt as nat),
        ensures
            !taken ==> r == TrashStep::MoveTo(place),
            taken ==> (r matches TrashStep::Look { attempt: a, place: p } && a == (if attempt
                < usize::MAX {
                attempt + 1
            } else {
                attempt as int
            }) && p@ == self.trash_place(relative_path@, a as nat)),
    {
        if !taken {
            TrashStep::MoveTo(place)
        } else {
            let a = attempt.saturating_add(1);
            let p = self.trash_candidate(relative_path, a);
            TrashStep::Look { attempt: a, place: p }
        }
    }

    /// The first step of the search for a free place in the trash: look at the
    /// place of try 0.
    pub fn trash_start(&self, relative_path: &str) -> (r: TrashStep)
        ensures
            r matches TrashStep::Look { attempt: a, place: p } && a == 0 && p@ == self.trash_place(
                relative_path@,
                0,
            ),
    {
        let p = self.trash_candidate(relative_path, 0);
        TrashStep::Look { attempt: 0, place: p }
    }
}

/// A step of the search for a free place in the trash.
pub enum TrashStep {
    /// Look whether `place`, the place of try `attempt`, is taken.
    Look { attempt: usize, place: String },
    /// Move the note to this place.
    MoveTo(String),
}

} // verus!

verus! {

/// A text with no white space at either end.
pub open spec fn is_trimmed(s: Seq<char>) -> bool {
    s.len() == 0 || (!crate::text::is_ws(s[0]) && !crate::text::is_ws(s.last()))
}

/// The text of a note made of a frontmatter block holding `yaml` and a body.
pub open spec fn fenced_note(yaml: Seq<char>, body: Seq<char>) -> Seq<char> {
    "---"@ + yaml + "\n---"@ + "\n"@ + body
}

proof fn lemma_trim_newline_body(body: Seq<char>)
    requires
        is_trimmed(body),
    ensures
        trim_spec("\n"@ + body) == body,
{
    reveal_strlit("\n");
    let s = "\n"@ + body;
    assert(s.drop_first() == body);
    if body.len() == 0 {
        assert(crate::text::leading_ws(body) == 0);
        assert(s.skip(1) == body);
    } else {
        assert(crate::text::leading_ws(body) == 0);
        assert(s.skip(1) == body);
        assert(crate::text::trailing_ws(body) == 0);
        assert(body.take(body.len() as int) == body);
    }
}

/// A note written as a frontmatter block and a body reads back as that block
/// and that body: the fence is found again where the block ends, provided
/// the block holds no `\n---` of its own and the body has no white space at
/// either end.
#[verifier::spinoff_prover]
#[verifier::rlimit(40)]
pub proof fn lemma_frontmatter_round_trip(yaml: Seq<char>, body: Seq<char>)
    requires
        !contains_spec(yaml, "\n---"@),
        is_trimmed(body),
    ensures
        fenced_parts(trim_start_spec(fenced_note(yaml, body))) == Some((yaml, body)),
{
    reveal_strlit("---");
    reveal_strlit("\n---");
    reveal_strlit("\n");
    let marker = "\n---"@;
    let c = fenced_note(yaml, body);
    assert(c[0] == '-');
    assert(crate::text::leading_ws(c) == 0);
    assert(c.skip(0) == c);
    assert(trim_start_spec(c) == c);
    assert(c.take(3) == "---"@);
    let a = c.skip(3);
    assert(a == yaml + marker + "\n"@ + body);
    let e = yaml.len() as int;
    assert(a.subrange(e, e + 4) == marker);
    assert(occurs_at(a, marker, e));
    assert forall|j: int| 0 <= j < e implies !occurs_at(a, marker, j) by {
        if occurs_at(a, marker, j) {
            if j + 4 <= e {
                assert(yaml.subrange(j, j + 4) == a.subrange(j, j + 4));
                assert(occurs_at(yaml, marker, j));
            } else {
                assert(a.subrange(j, j + 4)[e - j] == marker[e - j]);
                assert(a[e] == '\n');
                assert(marker[e - j] == '-');
            }
        }
    }
    crate::text::lemma_first_occurrence(a, marker, e);
    assert(contains_spec(a, marker));
    assert(a.take(e) == yaml);
    assert(a.skip(e + 4) == "\n"@ + body);
    lemma_trim_newline_body(body);
}

} // verus!

verus! {

/// A file name is its stem followed by its dotted extension.
proof fn lemma_stem_and_extension(path: Seq<char>)
    ensures
        path_stem(path) + dotted_extension(path) == file_name_or_empty(path),
{
    match file_name_spec(path) {
        Some(n) => {
            crate::paths::lemma_rfind_found(n, '.');
            match crate::paths::rfind_char(n, '.') {
                Some(i) => {
                    if i != 0 {
                        assert(n.take(i) + (seq!['.'] + n.skip(i + 1)) == n);
                    }
                },
                None => {},
            }
        },
        None => {},
    }
}

/// A note written as a frontmatter block and a body, whose block parsed to
/// `fm`, reads back with frontmatter `fm` and that body.
pub proof fn lemma_written_note_reads_back(
    yaml: Seq<char>,
    body: Seq<char>,
    split: FrontmatterSplit,
    fm: Frontmatter,
)
    requires
        !contains_spec(yaml, "\n---"@),
        is_trimmed(body),
        split_matches(fenced_note(yaml, body), split),
    ensures
        split matches FrontmatterSplit::Fenced { yaml: y, .. } && y@ == yaml,
        resolved(split, Some(fm)) == (Some(fm), body),
{
    lemma_frontmatter_round_trip(yaml, body);
}

/// Deleting a note never tries the same place in the trash twice: each
/// attempt gives a different name.
pub proof fn lemma_trash_names_distinct(path: Seq<char>, a: nat, b: nat)
    requires
        a != b,
    ensures
        trash_name_spec(path, a) != trash_name_spec(path, b),
{
    lemma_stem_and_extension(path);
    crate::text::lemma_decimal_len(a);
    crate::text::lemma_decimal_len(b);
    let x = path_stem(path) + seq!['_'];
    let y = dotted_extension(path);
    if a != 0 && b != 0 {
        let na = x + decimal(a) + y;
        let nb = x + decimal(b) + y;
        if na == nb {
            assert(na.len() == nb.len());
            assert(na.len() == x.len() + decimal(a).len() + y.len());
            assert(nb.len() == x.len() + decimal(b).len() + y.len());
            assert(decimal(a).len() == decimal(b).len());
            assert(na.subrange(x.len() as int, (x.len() + decimal(a).len()) as int) == decimal(a));
            assert(nb.subrange(x.len() as int, (x.len() + decimal(b).len()) as int) == decimal(b));
            crate::text::lemma_decimal_injective(a, b);
        }
    } else if a == 0 {
        assert(trash_name_spec(path, b).len() > trash_name_spec(path, a).len());
    } else {
        assert(trash_name_spec(path, a).len() > trash_name_spec(path, b).len());
    }
}

} // verus!

verus! {

/// No character of `s` is `/`.
pub open spec fn has_no_slash(s: Seq<char>) -> bool {
    forall|j: int| 0 <= j < s.len() ==> s[j] != '/'
}

proof fn lemma_decimal_has_no_slash(n: nat)
    ensures
        has_no_slash(decimal(n)),
    decreases n,
{
    if n >= 10 {
        lemma_decimal_has_no_slash(n / 10);
        assert forall|j: int| 0 <= j < decimal(n).len() implies decimal(n)[j] != '/' by {
            if j < decimal(n / 10).len() {
                assert(decimal(n)[j] == decimal(n / 10)[j]);
            }
        }
    }
}

/// A name tried for a trashed note holds no `/`.
pub proof fn lemma_trash_name_has_no_slash(path: Seq<char>, attempt: nat)
    ensures
        has_no_slash(trash_name_spec(path, attempt)),
{
    crate::paths::lemma_file_name_has_no_slash(path);
    lemma_stem_and_extension(path);
    lemma_decimal_has_no_slash(attempt);
    let n = file_name_or_empty(path);
    let st = path_stem(path);
    let ext = dotted_extension(path);
    assert(has_no_slash(n));
    assert(st + ext == n);
    assert forall|j: int| 0 <= j < st.len() implies st[j] != '/' by {
        assert((st + ext)[j] == st[j]);
    }
    assert forall|j: int| 0 <= j < ext.len() implies ext[j] != '/' by {
        assert((st + ext)[st.len() + j] == ext[j]);
    }
    if attempt != 0 {
        let name = st + seq!['_'] + decimal(attempt) + ext;
        let d = decimal(attempt);
        assert forall|j: int| 0 <= j < name.len() implies name[j] != '/' by {
            if j < st.len() {
                assert(name[j] == st[j]);
            } else if j == st.len() {
                assert(name[j] == '_');
            } else if j < st.len() + 1 + d.len() {
                assert(name[j] == d[j - st.len() - 1]);
            } else {
                assert(name[j] == ext[j - st.len() - 1 - d.len()]);
            }
        }
    }
}

/// Deleting a note moves it directly into the trash directory: each place
/// tried is the trash directory, a `/`, and a name that holds no `/`.
pub proof fn lemma_trash_place_is_inside_trash(root: Seq<char>, relative_path: Seq<char>, attempt: nat)
    ensures
        ({
            let name = trash_name_spec(join_path_spec(root, relative_path), attempt);
            &&& join_path_spec(join_path_spec(root, ".trash"@), name) == join_path_spec(
                root,
                ".trash"@,
            ) + seq!['/'] + name
            &&& has_no_slash(name)
        }),
{
    reveal_strlit(".trash");
    let path = join_path_spec(root, relative_path);
    let name = trash_name_spec(path, attempt);
    lemma_trash_name_has_no_slash(path, attempt);
    let dir = join_path_spec(root, ".trash"@);
    assert(dir.len() > 0 && dir.last() == 'h');
    if name.len() > 0 {
        assert(name[0] != '/');
    }
}


/// The search for a free place in the trash never looks at the same place
/// twice: the places of two different tries differ.
pub proof fn lemma_trash_places_distinct(v: VaultReader, relative_path: Seq<char>, a: nat, b: nat)
    requires
        a != b,
    ensures
        v.trash_place(relative_path, a) != v.trash_place(relative_path, b),
{
    let path = join_path_spec(v.root_view(), relative_path);
    lemma_trash_place_is_inside_trash(v.root_view(), relative_path, a);
    lemma_trash_place_is_inside_trash(v.root_view(), relative_path, b);
    lemma_trash_names_distinct(path, a, b);
    let head = join_path_spec(v.root_view(), ".trash"@) + seq!['/'];
    let na = trash_name_spec(path, a);
    let nb = trash_name_spec(path, b);
    if v.trash_place(relative_path, a) == v.trash_place(relative_path, b) {
        assert((head + na).skip(head.len() as int) == na);
        assert((head + nb).skip(head.len() as int) == nb);
    }
}


/// At any depth of a listing's walk, the next entry of the innermost
/// directory decides the step: a directory whose name does not start with
/// `.` is to be read at its place under that directory; a file whose
/// extension is `md` is to be read as a note at its place; anything else is
/// passed over, and either way the entry counts as looked at. A directory
/// whose entries are all looked at is left; the walk is done exactly when no
/// directory is left.
pub proof fn lemma_walk_step_reaches_every_entry(
    before: Seq<(Seq<char>, Seq<DirEntryInfo>, nat)>,
    after: Seq<(Seq<char>, Seq<DirEntryInfo>, nat)>,
    r: WalkAction,
)
    requires
        walk_transition(before, after, r),
    ensures
        r is Done <==> before.len() == 0,
        before.len() > 0 && before.last().2 >= before.last().1.len() ==> r is Nothing && after
            == before.drop_last(),
        before.len() > 0 && before.last().2 < before.last().1.len() ==> {
            let top = before.last();
            let e = top.1[top.2 as int];
            let place = join_path_spec(top.0, e.name@);
            let hidden = e.name@.len() > 0 && e.name@[0] == '.';
            &&& after == before.drop_last().push((top.0, top.1, top.2 + 1))
            &&& e.is_dir && !hidden ==> (r matches WalkAction::ReadDir(p) && p@ == place)
            &&& !e.is_dir && extension_of_name(e.name@) == Some(seq!['m', 'd']) ==> (
            r matches WalkAction::ReadNote(p) && p@ == place)
            &&& (e.is_dir && hidden) || (!e.is_dir && extension_of_name(e.name@) != Some(
                seq!['m', 'd'],
            )) ==> r is Nothing
        },
{
}

proof fn lemma_folder_indices_exact(es: Seq<DirEntryInfo>)
    requires
        es.len() <= usize::MAX,
    ensures
        forall|i: int|
            0 <= i < es.len() && counts_as_folder(es[i]) ==> folder_indices(es).contains(
                i as usize,
            ),
        forall|j: int|
            0 <= j < folder_indices(es).len() ==> (#[trigger] folder_indices(es)[j]) < es.len()
                && counts_as_folder(es[folder_indices(es)[j] as int]),
    decreases es.len(),
{
    if es.len() > 0 {
        let d = es.drop_last();
        lemma_folder_indices_exact(d);
        let fi = folder_indices(es);
        assert forall|i: int| 0 <= i < es.len() && counts_as_folder(es[i]) implies fi.contains(
            i as usize,
        ) by {
            if i < d.len() {
                assert(d[i] == es[i]);
                let j = choose|j: int| 0 <= j < folder_indices(d).len() && folder_indices(d)[j] == i as usize;
                if counts_as_folder(es.last()) {
                    assert(fi[j] == folder_indices(d)[j]);
                } else {
                    assert(fi[j] == folder_indices(d)[j]);
                }
            } else {
                assert(fi[fi.len() - 1] == (es.len() - 1) as usize);
            }
        }
        assert forall|j: int| 0 <= j < fi.len() implies (#[trigger] fi[j]) < es.len()
            && counts_as_folder(es[fi[j] as int]) by {
            let fd = folder_indices(d);
            if j < fd.len() {
                assert(fi[j] == fd[j]);
                assert(fd[j] < d.len() && counts_as_folder(d[fd[j] as int]));
                assert(d[fd[j] as int] == es[fd[j] as int]);
            } else {
                assert(counts_as_folder(es.last()));
                assert(fi[j] == (es.len() - 1) as usize);
            }
        }
    }
}

/// Whether `queued`, a place and a folder name, is that of an entry of the
/// directory `dir`, named `prefix`, that is a directory whose name does not
/// start with `.`: the place is `dir` joined with the entry's name, and the
/// folder name is `prefix`, a `/` and the entry's name (the name alone where
/// `prefix` is empty).
pub open spec fn visible_subdirectory(
    dir: Seq<char>,
    prefix: Seq<char>,
    entries: Seq<DirEntryInfo>,
    queued: (Seq<char>, Seq<char>),
) -> bool {
    exists|i: int|
        0 <= i < entries.len() && entries[i].is_dir && !(entries[i].name@.len() > 0
            && entries[i].name@[0] == '.') && queued == (
            join_path_spec(dir, entries[i].name@),
            if prefix.len() == 0 {
                entries[i].name@
            } else {
                prefix + seq!['/'] + entries[i].name@
            },
        )
}

/// Counting a directory queues exactly its subdirectories whose names do not
/// start with `.`: each at the directory's place joined with the
/// subdirectory's own name, and named by the directory's folder name, a `/`
/// and its own name (its own name alone at the root).
pub proof fn lemma_subfolders_are_visible_subdirectories(
    dir: Seq<char>,
    prefix: Seq<char>,
    entries: Seq<DirEntryInfo>,
)
    requires
        entries.len() <= usize::MAX,
    ensures
        forall|i: int|
            0 <= i < entries.len() && entries[i].is_dir && !(entries[i].name@.len() > 0
                && entries[i].name@[0] == '.') ==> subfolders(dir, prefix, entries).contains(
                (
                    join_path_spec(dir, entries[i].name@),
                    if prefix.len() == 0 {
                        entries[i].name@
                    } else {
                        prefix + seq!['/'] + entries[i].name@
                    },
                ),
            ),
        forall|j: int|
            0 <= j < subfolders(dir, prefix, entries).len() ==> visible_subdirectory(
                dir,
                prefix,
                entries,
                #[trigger] subfolders(dir, prefix, entries)[j],
            ),
{
    lemma_folder_indices_exact(entries);
    let fi = folder_indices(entries);
    let sf = subfolders(dir, prefix, entries);
    assert forall|i: int|
        0 <= i < entries.len() && entries[i].is_dir && !(entries[i].name@.len() > 0
            && entries[i].name@[0] == '.') implies sf.contains(
        (
            join_path_spec(dir, entries[i].name@),
            if prefix.len() == 0 {
                entries[i].name@
            } else {
                prefix + seq!['/'] + entries[i].name@
            },
        ),
    ) by {
        assert(counts_as_folder(entries[i]));
        let j = choose|j: int| 0 <= j < fi.len() && fi[j] == i as usize;
        assert(fi[j] as int == i);
        assert(sf[j] == (
            join_path_spec(dir, entries[i].name@),
            sub_prefix_spec(prefix, entries[i].name@),
        ));
    }
    assert forall|j: int| 0 <= j < sf.len() implies visible_subdirectory(
        dir,
        prefix,
        entries,
        #[trigger] sf[j],
    ) by {
        let i = fi[j] as int;
        assert(counts_as_folder(entries[i]));
        assert(sf[j] == (
            join_path_spec(dir, entries[i].name@),
            sub_prefix_spec(prefix, entries[i].name@),
        ));
    }
}


/// An entry that counts as a note, told from its name and kind alone.
spec fn is_visible_note(e: DirEntryInfo) -> bool {
    !e.is_dir && !(e.name@.len() > 0 && e.name@[0] == '.') && extension_of_name(e.name@) == Some(
        seq!['m', 'd'],
    )
}

proof fn lemma_note_count_filter(es: Seq<DirEntryInfo>)
    ensures
        note_count_spec(es) == es.filter(|e: DirEntryInfo| is_visible_note(e)).len(),
        note_count_spec(es) > 0 <==> exists|i: int| 0 <= i < es.len() && is_visible_note(es[i]),
    decreases es.len(),
{
    reveal(Seq::filter);
    if es.len() > 0 {
        let d = es.drop_last();
        lemma_note_count_filter(d);
        if note_count_spec(d) > 0 {
            let i = choose|i: int| 0 <= i < d.len() && is_visible_note(d[i]);
            assert(es[i] == d[i]);
        }
        if exists|i: int| 0 <= i < es.len() && is_visible_note(es[i]) {
            let i = choose|i: int| 0 <= i < es.len() && is_visible_note(es[i]);
            if i < d.len() {
                assert(d[i] == es[i]);
            }
        }
    }
}

/// Counting a directory counts exactly its entries that are files whose
/// names do not start with `.` and whose extension is `md`, and it gives the
/// directory a line, with that count, exactly where it holds such a file or a
/// subdirectory whose name does not start with `.`.
pub proof fn lemma_folder_count_counts_visible_notes(prefix: Seq<char>, entries: Seq<DirEntryInfo>)
    requires
        entries.len() <= usize::MAX,
    ensures
        note_count_spec(entries) == entries.filter(
            |e: DirEntryInfo|
                !e.is_dir && !(e.name@.len() > 0 && e.name@[0] == '.') && extension_of_name(e.name@)
                    == Some(seq!['m', 'd']),
        ).len(),
        folder_record(prefix, entries).len() > 0 <==> exists|i: int|
            0 <= i < entries.len() && !(entries[i].name@.len() > 0 && entries[i].name@[0] == '.')
                && (entries[i].is_dir || extension_of_name(entries[i].name@) == Some(
                seq!['m', 'd'],
            )),
        folder_record(prefix, entries).len() > 0 ==> folder_record(prefix, entries) == seq![
            (prefix, note_count_spec(entries)),
        ],
{
    lemma_note_count_filter(entries);
    assert((|e: DirEntryInfo| is_visible_note(e)) =~= (|e: DirEntryInfo|
        !e.is_dir && !(e.name@.len() > 0 && e.name@[0] == '.') && extension_of_name(e.name@)
            == Some(seq!['m', 'd'])));
    lemma_folder_indices_exact(entries);
    let fi = folder_indices(entries);
    if exists|i: int|
        0 <= i < entries.len() && !(entries[i].name@.len() > 0 && entries[i].name@[0] == '.') && (
        entries[i].is_dir || extension_of_name(entries[i].name@) == Some(seq!['m', 'd'])) {
        let i = choose|i: int|
            0 <= i < entries.len() && !(entries[i].name@.len() > 0 && entries[i].name@[0] == '.')
                && (entries[i].is_dir || extension_of_name(entries[i].name@) == Some(
                seq!['m', 'd'],
            ));
        if entries[i].is_dir {
            assert(counts_as_folder(entries[i]));
            assert(fi.contains(i as usize));
        } else {
            assert(is_visible_note(entries[i]));
        }
    }
    if fi.len() > 0 {
        assert(counts_as_folder(entries[fi[0] as int]));
        let i = fi[0] as int;
        assert(0 <= i < entries.len() && !(entries[i].name@.len() > 0 && entries[i].name@[0] == '.')
            && entries[i].is_dir);
    }
    if note_count_spec(entries) > 0 {
        let i = choose|i: int| 0 <= i < entries.len() && is_visible_note(entries[i]);
        assert(!(entries[i].name@.len() > 0 && entries[i].name@[0] == '.') && extension_of_name(
            entries[i].name@,
        ) == Some(seq!['m', 'd']));
    }
}


/// A note's title is its frontmatter's `title` where it has one; otherwise
/// it is its file's name up to the extension: the title, then a `.` and the
/// extension where there is one, give the file name back.
pub proof fn lemma_note_title(fm: Option<Frontmatter>, path: Seq<char>)
    ensures
        (fm matches Some(f) && f.title is Some) ==> title_spec(fm, path) == fm.unwrap().title.unwrap()@,
        !(fm matches Some(f) && f.title is Some) ==> title_spec(fm, path) + match file_name_spec(
            path,
        ) {
            Some(n) => match extension_of_name(n) {
                Some(e) => seq!['.'] + e,
                None => Seq::<char>::empty(),
            },
            None => Seq::<char>::empty(),
        } == match file_name_spec(path) {
            Some(n) => n,
            None => Seq::<char>::empty(),
        },
        tags_spec(fm) == match fm {
            Some(f) => f.tags@.map_values(|t: String| t@),
            None => Seq::<Seq<char>>::empty(),
        },
{
    lemma_stem_and_extension(path);
}

} // verus!
