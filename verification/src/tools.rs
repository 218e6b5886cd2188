//! The MCP tools: their parameters and the text each one replies with.
use vstd::prelude::*;
use crate::text::{
    chars_less, chars_lt, chars_of, contains, contains_spec, decimal, join, join_spec,
    lemma_chars_lt_asymmetric, push_all, push_decimal, push_str, spec_lowercase,
    string_from_chars, to_lowercase, views,
};
use crate::vault::{Note, NoteSummary, VaultReader};

verus! {

broadcast use vstd::seq_lib::group_to_multiset_ensures;

/// Parameters of `list_notes`.
pub struct ListNotesParams {
    /// Optional folder path relative to vault root (e.g. "Daily", "Projects")
    pub folder: Option<String>,
}

/// Parameters of `read_note`.
pub struct ReadNoteParams {
    /// Relative path to the note (e.g. "Daily/2025-01-15.md")
    pub path: String,
}

/// Parameters of `search_notes`.
pub struct SearchNotesParams {
    /// Search query to match against note content
    pub query: String,
}

/// Parameters of `list_folders`.
pub struct ListFoldersParams {
    /// Optional subfolder to list (defaults to vault root)
    pub folder: Option<String>,
}

/// Parameters of `write_note`.
pub struct WriteNoteParams {
    /// Relative path to the note (e.g. "Daily/2025-01-15.md")
    pub path: String,
    /// Full note content including optional YAML frontmatter
    pub content: String,
}

/// Parameters of `delete_note`.
pub struct DeleteNoteParams {
    /// Relative path to the note (e.g. "Daily/2025-01-15.md")
    pub path: String,
}

/// Parameters of `get_note_metadata`.
pub struct GetNoteMetadataParams {
    /// Relative path to the note (e.g. "Daily/2025-01-15.md")
    pub path: String,
}

/// The tool set, serving one vault.
pub struct AperioTools {
    vault: VaultReader,
}

impl AperioTools {
    /// The vault the tools serve.
    pub closed spec fn vault_view(&self) -> VaultReader {
        self.vault
    }

    /// Tools serving `vault`.
    pub fn new(vault: VaultReader) -> (r: AperioTools)
        ensures
            r.vault_view() == vault,
    {
        AperioTools { vault }
    }

    /// The vault the tools serve.
    pub fn vault(&self) -> (r: &VaultReader)
        ensures
            *r == self.vault_view(),
    {
        &self.vault
    }
}

/// The text of each element of `s`, one after the other.
pub open spec fn concat_map<A>(s: Seq<A>, f: spec_fn(A) -> Seq<char>) -> Seq<char>
    decreases s.len(),
{
    if s.len() == 0 {
        Seq::empty()
    } else {
        concat_map(s.drop_last(), f) + f(s.last())
    }
}

/// How `list_notes` closes a line: the path's closing backtick, then the tags.
pub open spec fn tags_suffix(tags: Seq<Seq<char>>) -> Seq<char> {
    if tags.len() == 0 {
        "`"@
    } else {
        "` `"@ + join_spec(tags, "`, `"@) + "`"@
    }
}

/// A line of the `list_notes` reply.
pub open spec fn note_list_line(n: NoteSummary) -> Seq<char> {
    "- **"@ + n.title@ + "** — `"@ + n.path@ + tags_suffix(views(n.tags@)) + "\n"@
}

/// The `list_notes` reply for a listing.
pub open spec fn note_list_text(notes: Seq<NoteSummary>) -> Seq<char> {
    if notes.len() == 0 {
        "No notes found."@
    } else {
        "# Notes\n\n"@ + concat_map(notes, |n: NoteSummary| note_list_line(n))
    }
}

/// The `list_notes` reply: a line for each note with its title, path and tags.
pub fn render_note_list(notes: &Vec<NoteSummary>) -> (r: String)
    ensures
        r@ == note_list_text(notes@),
{
    if notes.len() == 0 {
        return "No notes found.".to_string();
    }
    let mut out: Vec<char> = Vec::new();
    push_str(&mut out, "# Notes\n\n");
    let ghost head = out@;
    let n = notes.len();
    let mut i: usize = 0;
    while i < n
        invariant
            n == notes@.len(),
            i <= n,
            out@ == head + concat_map(notes@.take(i as int), |n: NoteSummary| note_list_line(n)),
        decreases n - i,
    {
        assert(notes@.take(i + 1).drop_last() == notes@.take(i as int));
        assert(notes@.take(i + 1).last() == notes@[i as int]);
        let note = &notes[i];
        push_str(&mut out, "- **");
        push_str(&mut out, note.title.as_str());
        push_str(&mut out, "** — `");
        push_str(&mut out, note.path.as_str());
        if note.tags.len() == 0 {
            push_str(&mut out, "`");
        } else {
            push_str(&mut out, "` `");
            let j = join(&note.tags, "`, `");
            push_all(&mut out, &j);
            push_str(&mut out, "`");
        }
        push_str(&mut out, "\n");
        i = i + 1;
    }
    assert(notes@.take(n as int) == notes@);
    string_from_chars(&out)
}

/// The `read_note` reply: the frontmatter's title and tags in a fenced block, then the body.
pub open spec fn note_text(n: Note) -> Seq<char> {
    match n.frontmatter {
        Some(fm) => "---\n"@ + (match fm.title {
            Some(t) => "title: "@ + t@ + "\n"@,
            None => Seq::empty(),
        }) + (if fm.tags@.len() > 0 {
            "tags: ["@ + join_spec(views(fm.tags@), ", "@) + "]\n"@
        } else {
            Seq::empty()
        }) + "---\n\n"@ + n.content@,
        None => n.content@,
    }
}

/// The `read_note` reply for a note.
pub fn render_note(note: &Note) -> (r: String)
    ensures
        r@ == note_text(*note),
{
    let mut out: Vec<char> = Vec::new();
    match &note.frontmatter {
        Some(fm) => {
            push_str(&mut out, "---\n");
            match &fm.title {
                Some(t) => {
                    push_str(&mut out, "title: ");
                    push_str(&mut out, t.as_str());
                    push_str(&mut out, "\n");
                },
                None => {},
            }
            if fm.tags.len() > 0 {
                push_str(&mut out, "tags: [");
                let j = join(&fm.tags, ", ");
                push_all(&mut out, &j);
                push_str(&mut out, "]\n");
            }
            push_str(&mut out, "---\n\n");
        },
        None => {},
    }
    push_str(&mut out, note.content.as_str());
    string_from_chars(&out)
}

/// A note that `search_notes` considered: its summary and, where it could be
/// read, its body.
pub struct SearchCandidate {
    pub summary: NoteSummary,
    pub body: Option<String>,
}

/// A readable note matches a lower-cased query when its lower-cased body, title
/// or one of its lower-cased tags contains the query.
pub open spec fn search_match(query: Seq<char>, c: SearchCandidate) -> bool {
    match c.body {
        Some(b) => {
            ||| contains_spec(spec_lowercase(b@), query)
            ||| contains_spec(spec_lowercase(c.summary.title@), query)
            ||| exists|i: int|
                0 <= i < c.summary.tags@.len() && contains_spec(
                    spec_lowercase(#[trigger] c.summary.tags@[i]@),
                    query,
                )
        },
        None => false,
    }
}

/// The summaries of the candidates that match, in the order given.
pub open spec fn search_hits(query: Seq<char>, cs: Seq<SearchCandidate>) -> Seq<NoteSummary>
    decreases cs.len(),
{
    if cs.len() == 0 {
        Seq::empty()
    } else if search_match(query, cs.last()) {
        search_hits(query, cs.drop_last()).push(cs.last().summary)
    } else {
        search_hits(query, cs.drop_last())
    }
}

/// A line of the `search_notes` reply.
pub open spec fn search_line(n: NoteSummary) -> Seq<char> {
    "- **"@ + n.title@ + "** — `"@ + n.path@ + "`\n"@
}

/// The `search_notes` reply for a lower-cased query and the notes that match it.
pub open spec fn search_text(query: Seq<char>, hits: Seq<NoteSummary>) -> Seq<char> {
    if hits.len() == 0 {
        "No notes matching '"@ + query + "'"@
    } else {
        "# Search results for '"@ + query + "'\n\n"@ + concat_map(
            hits,
            |n: NoteSummary| search_line(n),
        )
    }
}

/// Whether a candidate matches a lower-cased query.
pub fn matches_query(query: &Vec<char>, c: &SearchCandidate) -> (b: bool)
    ensures
        b == search_match(query@, *c),
{
    match &c.body {
        Some(body) => {
            let lb = chars_of(to_lowercase(body.as_str()).as_str());
            if contains(&lb, query) {
                return true;
            }
            let lt = chars_of(to_lowercase(c.summary.title.as_str()).as_str());
            if contains(&lt, query) {
                return true;
            }
            let n = c.summary.tags.len();
            let mut i: usize = 0;
            while i < n
                invariant
                    n == c.summary.tags@.len(),
                    i <= n,
                    c.body is Some,
                    forall|j: int|
                        0 <= j < i ==> !contains_spec(
                            spec_lowercase(#[trigger] c.summary.tags@[j]@),
                            query@,
                        ),
                decreases n - i,
            {
                let tag = chars_of(to_lowercase(c.summary.tags[i].as_str()).as_str());
                if contains(&tag, query) {
                    assert(contains_spec(spec_lowercase(c.summary.tags@[i as int]@), query@));
                    return true;
                }
                i = i + 1;
            }
            false
        },
        None => false,
    }
}

/// The `search_notes` reply: the notes among `candidates` that match the
/// query, compared without regard to case.
pub fn search_results(query: &str, candidates: Vec<SearchCandidate>) -> (r: String)
    ensures
        r@ == search_text(spec_lowercase(query@), search_hits(spec_lowercase(query@), candidates@)),
{
    let q = to_lowercase(query);
    let qc = chars_of(q.as_str());
    let mut hits: Vec<NoteSummary> = Vec::new();
    let n = candidates.len();
    let mut rest = candidates;
    let ghost all = rest@;
    let mut i: usize = 0;
    while i < n
        invariant
            n == all.len(),
            i <= n,
            rest@ == all.skip(i as int),
            hits@ == search_hits(qc@, all.take(i as int)),
            qc@ == spec_lowercase(query@),
        decreases n - i,
    {
        assert(all.take(i + 1).drop_last() == all.take(i as int));
        assert(rest@[0] == all[i as int]);
        let c = rest.remove(0);
        assert(all.take(i + 1).last() == c);
        assert(rest@ == all.skip(i + 1));
        if matches_query(&qc, &c) {
            hits.push(c.summary);
        }
        i = i + 1;
    }
    assert(all.take(n as int) == all);
    let mut out: Vec<char> = Vec::new();
    if hits.len() == 0 {
        push_str(&mut out, "No notes matching '");
        push_str(&mut out, q.as_str());
        push_str(&mut out, "'");
        return string_from_chars(&out);
    }
    push_str(&mut out, "# Search results for '");
    push_str(&mut out, q.as_str());
    push_str(&mut out, "'\n\n");
    let ghost head = out@;
    let m = hits.len();
    let mut k: usize = 0;
    while k < m
        invariant
            m == hits@.len(),
            k <= m,
            out@ == head + concat_map(hits@.take(k as int), |n: NoteSummary| search_line(n)),
        decreases m - k,
    {
        assert(hits@.take(k + 1).drop_last() == hits@.take(k as int));
        assert(hits@.take(k + 1).last() == hits@[k as int]);
        push_str(&mut out, "- **");
        push_str(&mut out, hits[k].title.as_str());
        push_str(&mut out, "** — `");
        push_str(&mut out, hits[k].path.as_str());
        push_str(&mut out, "`\n");
        k = k + 1;
    }
    assert(hits@.take(m as int) == hits@);
    string_from_chars(&out)
}

} // verus!

verus! {

/// The folders ordered by name, each name not before the one ahead of it.
pub open spec fn sorted_by_name(v: Seq<(String, usize)>) -> bool {
    forall|i: int| 0 < i < v.len() ==> !chars_lt(#[trigger] v[i].0@, v[i - 1].0@)
}

/// No folder of a sorted list has a name before that of one ahead of it.
pub proof fn lemma_sorted_by_name_pair(v: Seq<(String, usize)>, i: int, j: int)
    requires
        sorted_by_name(v),
        0 <= i < j < v.len(),
    ensures
        !chars_lt(v[j].0@, v[i].0@),
    decreases j - i,
{
    if j > i + 1 {
        lemma_sorted_by_name_pair(v, i, j - 1);
        crate::text::lemma_chars_le_transitive(v[i].0@, v[j - 1].0@, v[j].0@);
    }
}

/// Where a stable sort places a folder named `x` among the sorted `r`: after
/// every folder whose name is not after `x`, before the first whose name is.
pub open spec fn name_insert_pos(r: Seq<(String, usize)>, x: Seq<char>) -> nat
    decreases r.len(),
{
    if r.len() == 0 {
        0
    } else if chars_lt(x, r[0].0@) {
        0
    } else {
        1 + name_insert_pos(r.drop_first(), x)
    }
}

/// The folders sorted by name, folders of equal names in the order given:
/// each folder in turn placed after those before it whose name is not after
/// its own.
pub open spec fn stable_sort_by_name(v: Seq<(String, usize)>) -> Seq<(String, usize)>
    decreases v.len(),
{
    if v.len() == 0 {
        Seq::empty()
    } else {
        let r = stable_sort_by_name(v.drop_last());
        r.insert(name_insert_pos(r, v.last().0@) as int, v.last())
    }
}

proof fn lemma_name_insert_pos(r: Seq<(String, usize)>, x: Seq<char>)
    ensures
        name_insert_pos(r, x) <= r.len(),
        forall|j: int| 0 <= j < name_insert_pos(r, x) ==> !chars_lt(x, #[trigger] r[j].0@),
        name_insert_pos(r, x) < r.len() ==> chars_lt(x, r[name_insert_pos(r, x) as int].0@),
    decreases r.len(),
{
    if r.len() > 0 && !chars_lt(x, r[0].0@) {
        lemma_name_insert_pos(r.drop_first(), x);
        assert forall|j: int| 0 <= j < name_insert_pos(r, x) implies !chars_lt(
            x,
            #[trigger] r[j].0@,
        ) by {
            if j > 0 {
                assert(r[j] == r.drop_first()[j - 1]);
            }
        }
    }
}

#[verifier::spinoff_prover]
proof fn lemma_insert_keeps_sorted_by_name(r: Seq<(String, usize)>, x: (String, usize))
    requires
        sorted_by_name(r),
    ensures
        sorted_by_name(r.insert(name_insert_pos(r, x.0@) as int, x)),
{
    let p = name_insert_pos(r, x.0@) as int;
    lemma_name_insert_pos(r, x.0@);
    if p < r.len() {
        lemma_chars_lt_asymmetric(x.0@, r[p].0@);
    }
    let s = r.insert(p, x);
    assert forall|i: int| 0 < i < s.len() implies !chars_lt(#[trigger] s[i].0@, s[i - 1].0@) by {
        if i < p {
            assert(s[i] == r[i] && s[i - 1] == r[i - 1]);
        } else if i == p {
            assert(s[i - 1] == r[i - 1]);
        } else if i == p + 1 {
            assert(s[i] == r[p]);
        } else {
            assert(s[i] == r[i - 1] && s[i - 1] == r[i - 2]);
        }
    }
}

/// A folder listing holds exactly the folders it was given, ordered by name.
pub proof fn lemma_stable_sort_by_name(v: Seq<(String, usize)>)
    ensures
        stable_sort_by_name(v).to_multiset() == v.to_multiset(),
        sorted_by_name(stable_sort_by_name(v)),
    decreases v.len(),
{
    if v.len() > 0 {
        let r = stable_sort_by_name(v.drop_last());
        lemma_stable_sort_by_name(v.drop_last());
        lemma_insert_keeps_sorted_by_name(r, v.last());
        lemma_name_insert_pos(r, v.last().0@);
        let p = name_insert_pos(r, v.last().0@) as int;
        assert(stable_sort_by_name(v) == r.insert(p, v.last()));
        assert(r.insert(p, v.last()).to_multiset() == r.to_multiset().insert(v.last()));
        assert(v.drop_last().push(v.last()) == v);
        assert(v.drop_last().push(v.last()).to_multiset() == v.drop_last().to_multiset().insert(
            v.last(),
        ));
    }
}

/// Sorts a folder list by name, keeping folders of equal names in the order given.
pub fn sort_folders(v: Vec<(String, usize)>) -> (r: Vec<(String, usize)>)
    ensures
        r@ == stable_sort_by_name(v@),
        r@.to_multiset() == v@.to_multiset(),
        sorted_by_name(r@),
        forall|i: int, j: int|
            0 <= i < j < r@.len() ==> !chars_lt(#[trigger] r@[j].0@, #[trigger] r@[i].0@),
{
    let ghost all = v@;
    let mut rest = v;
    let mut r: Vec<(String, usize)> = Vec::new();
    let ghost mut i: int = 0;
    assert(all.take(0) == Seq::<(String, usize)>::empty());
    assert(all.skip(0) == all);
    while rest.len() > 0
        invariant
            0 <= i <= all.len(),
            rest@ == all.skip(i),
            r@ == stable_sort_by_name(all.take(i)),
            r@.to_multiset().add(rest@.to_multiset()) == all.to_multiset(),
            sorted_by_name(r@),
        decreases rest@.len(),
    {
        let ghost before_rest = rest@;
        let x = rest.remove(0);
        assert(before_rest.remove(0).to_multiset() == before_rest.to_multiset().remove(x));
        assert(x == all[i]);
        assert(rest@ == all.skip(i + 1));
        let xn = chars_of(x.0.as_str());
        let mut p: usize = 0;
        assert(r@.skip(0) == r@);
        while p < r.len() && !chars_less(&xn, &chars_of(r[p].0.as_str()))
            invariant
                p <= r@.len(),
                xn@ == x.0@,
                forall|j: int| 0 <= j < p ==> !chars_lt(x.0@, #[trigger] r@[j].0@),
                name_insert_pos(r@, x.0@) == p + name_insert_pos(r@.skip(p as int), x.0@),
            decreases r@.len() - p,
        {
            assert(r@.skip(p as int)[0] == r@[p as int]);
            assert(r@.skip(p as int).drop_first() == r@.skip(p + 1));
            p = p + 1;
        }
        proof {
            if p < r@.len() {
                assert(r@.skip(p as int)[0] == r@[p as int]);
            }
            assert(name_insert_pos(r@, x.0@) == p);
            assert(all.take(i + 1).drop_last() == all.take(i));
            assert(all.take(i + 1).last() == x);
        }
        proof {
            if p < r@.len() {
                lemma_chars_lt_asymmetric(x.0@, r@[p as int].0@);
            }
        }
        let ghost before = r@;
        r.insert(p, x);
        assert(r@ == before.insert(p as int, x));
        assert(sorted_by_name(r@)) by {
            assert forall|i: int| 0 < i < r@.len() implies !chars_lt(
                #[trigger] r@[i].0@,
                r@[i - 1].0@,
            ) by {
                if i < p {
                } else if i == p {
                    assert(r@[i - 1] == before[i - 1]);
                } else if i == p + 1 {
                    assert(r@[i] == before[p as int]);
                } else {
                    assert(r@[i] == before[i - 1] && r@[i - 1] == before[i - 2]);
                }
            }
        }
        proof {
            i = i + 1;
        }
    }
    assert(rest@.to_multiset() =~= vstd::multiset::Multiset::empty());
    assert(all.take(i) == all);
    proof {
        assert forall|i: int, j: int| 0 <= i < j < r@.len() implies !chars_lt(
            #[trigger] r@[j].0@,
            #[trigger] r@[i].0@,
        ) by {
            lemma_sorted_by_name_pair(r@, i, j);
        }
    }
    r
}

/// A line of the `list_folders` reply; the root folder is written `/`.
pub open spec fn folder_line(f: (String, usize)) -> Seq<char> {
    "- **"@ + (if f.0@.len() == 0 { "/"@ } else { f.0@ }) + "** — "@ + decimal(f.1 as nat)
        + " notes\n"@
}

/// The `list_folders` reply for a folder list already ordered.
pub open spec fn folder_list_text(folders: Seq<(String, usize)>) -> Seq<char> {
    "# Vault Folders\n\n"@ + concat_map(folders, |f: (String, usize)| folder_line(f))
}

/// The `list_folders` reply: the folders ordered by name, folders of equal
/// names in the order given, each with its note count.
pub fn render_folders(folders: Vec<(String, usize)>) -> (r: String)
    ensures
        r@ == folder_list_text(stable_sort_by_name(folders@)),
{
    let sorted = sort_folders(folders);
    let mut out: Vec<char> = Vec::new();
    push_str(&mut out, "# Vault Folders\n\n");
    let ghost head = out@;
    let n = sorted.len();
    let mut i: usize = 0;
    while i < n
        invariant
            n == sorted@.len(),
            i <= n,
            out@ == head + concat_map(
                sorted@.take(i as int),
                |f: (String, usize)| folder_line(f),
            ),
        decreases n - i,
    {
        assert(sorted@.take(i + 1).drop_last() == sorted@.take(i as int));
        assert(sorted@.take(i + 1).last() == sorted@[i as int]);
        push_str(&mut out, "- **");
        if sorted[i].0.as_str().is_empty() {
            push_str(&mut out, "/");
        } else {
            push_str(&mut out, sorted[i].0.as_str());
        }
        push_str(&mut out, "** — ");
        push_decimal(&mut out, sorted[i].1 as u64);
        push_str(&mut out, " notes\n");
        i = i + 1;
    }
    assert(sorted@.take(n as int) == sorted@);
    string_from_chars(&out)
}

/// The `write_note` reply.
pub open spec fn written_text(n: Note) -> Seq<char> {
    "Note '"@ + n.title@ + "' written to `"@ + n.path@ + "`"@
}

/// The `write_note` reply for the note written.
pub fn render_written(note: &Note) -> (r: String)
    ensures
        r@ == written_text(*note),
{
    let mut out: Vec<char> = Vec::new();
    push_str(&mut out, "Note '");
    push_str(&mut out, note.title.as_str());
    push_str(&mut out, "' written to `");
    push_str(&mut out, note.path.as_str());
    push_str(&mut out, "`");
    string_from_chars(&out)
}

/// The `delete_note` reply.
pub open spec fn deleted_text(trash_path: Seq<char>) -> Seq<char> {
    "Note moved to `"@ + trash_path + "`"@
}

/// The `delete_note` reply for a note moved to `trash_path`.
pub fn render_deleted(trash_path: &str) -> (r: String)
    ensures
        r@ == deleted_text(trash_path@),
{
    let mut out: Vec<char> = Vec::new();
    push_str(&mut out, "Note moved to `");
    push_str(&mut out, trash_path);
    push_str(&mut out, "`");
    string_from_chars(&out)
}

/// The `get_note_metadata` reply.
pub open spec fn metadata_text(s: NoteSummary) -> Seq<char> {
    "# Metadata for `"@ + s.path@ + "`\n\n"@ + "- **Title:** "@ + s.title@ + "\n"@ + (if s.tags@.len()
        == 0 {
        "- **Tags:** (none)\n"@
    } else {
        "- **Tags:** `"@ + join_spec(views(s.tags@), "`, `"@) + "`\n"@
    })
}

/// The `get_note_metadata` reply for a note's summary.
pub fn render_metadata(summary: &NoteSummary) -> (r: String)
    ensures
        r@ == metadata_text(*summary),
{
    let mut out: Vec<char> = Vec::new();
    push_str(&mut out, "# Metadata for `");
    push_str(&mut out, summary.path.as_str());
    push_str(&mut out, "`\n\n");
    push_str(&mut out, "- **Title:** ");
    push_str(&mut out, summary.title.as_str());
    push_str(&mut out, "\n");
    if summary.tags.len() == 0 {
        push_str(&mut out, "- **Tags:** (none)\n");
    } else {
        push_str(&mut out, "- **Tags:** `");
        let j = join(&summary.tags, "`, `");
        push_all(&mut out, &j);
        push_str(&mut out, "`\n");
    }
    string_from_chars(&out)
}

} // verus!

verus! {

/// Searching ignores case: two queries with the same lower-case form get the
/// same reply from the same notes.
pub proof fn lemma_search_ignores_case(q1: Seq<char>, q2: Seq<char>, candidates: Seq<SearchCandidate>)
    requires
        spec_lowercase(q1) == spec_lowercase(q2),
    ensures
        search_text(spec_lowercase(q1), search_hits(spec_lowercase(q1), candidates)) == search_text(
            spec_lowercase(q2),
            search_hits(spec_lowercase(q2), candidates),
        ),
{
}

/// Whether some candidate that matches the query `q` has the summary `n`.
pub open spec fn matched_by(q: Seq<char>, candidates: Seq<SearchCandidate>, n: NoteSummary) -> bool {
    exists|k: int| 0 <= k < candidates.len() && search_match(q, candidates[k]) && candidates[k].summary == n
}

#[verifier::spinoff_prover]
proof fn lemma_search_hits_sound(q: Seq<char>, candidates: Seq<SearchCandidate>)
    ensures
        forall|i: int|
            0 <= i < search_hits(q, candidates).len() ==> matched_by(
                q,
                candidates,
                #[trigger] search_hits(q, candidates)[i],
            ),
    decreases candidates.len(),
{
    if candidates.len() > 0 {
        let rest = candidates.drop_last();
        lemma_search_hits_sound(q, rest);
        let h = search_hits(q, rest);
        let hs = search_hits(q, candidates);
        assert forall|i: int| 0 <= i < hs.len() implies matched_by(q, candidates, #[trigger] hs[i]) by {
            if i < h.len() {
                assert(hs[i] == h[i]);
                assert(matched_by(q, rest, h[i]));
                let k = choose|k: int|
                    0 <= k < rest.len() && search_match(q, rest[k]) && rest[k].summary == h[i];
                assert(candidates[k] == rest[k]);
            } else {
                let k = candidates.len() - 1;
                assert(search_match(q, candidates.last()));
                assert(hs == h.push(candidates.last().summary));
                assert(candidates[k] == candidates.last());
                assert(candidates[k].summary == hs[i]);
            }
        }
    }
}

#[verifier::spinoff_prover]
proof fn lemma_search_hits_complete(q: Seq<char>, candidates: Seq<SearchCandidate>)
    ensures
        forall|k: int|
            0 <= k < candidates.len() && search_match(q, #[trigger] candidates[k]) ==> search_hits(
                q,
                candidates,
            ).contains(candidates[k].summary),
    decreases candidates.len(),
{
    if candidates.len() > 0 {
        let rest = candidates.drop_last();
        lemma_search_hits_complete(q, rest);
        let h = search_hits(q, rest);
        let hs = search_hits(q, candidates);
        assert forall|k: int|
            0 <= k < candidates.len() && search_match(q, #[trigger] candidates[k]) implies hs.contains(
            candidates[k].summary,
        ) by {
            if k < rest.len() {
                assert(candidates[k] == rest[k]);
                assert(h.contains(rest[k].summary));
                let j = choose|j: int| 0 <= j < h.len() && h[j] == rest[k].summary;
                assert(hs[j] == h[j]);
            } else {
                assert(candidates[k] == candidates.last());
                assert(hs[hs.len() - 1] == candidates.last().summary);
            }
        }
    }
}

/// Every note the search replies with matches the query, and every readable
/// note that matches it is replied with.
pub proof fn lemma_search_hits_are_matches(q: Seq<char>, candidates: Seq<SearchCandidate>)
    ensures
        forall|i: int|
            0 <= i < search_hits(q, candidates).len() ==> matched_by(
                q,
                candidates,
                #[trigger] search_hits(q, candidates)[i],
            ),
        forall|k: int|
            0 <= k < candidates.len() && search_match(q, #[trigger] candidates[k]) ==> search_hits(
                q,
                candidates,
            ).contains(candidates[k].summary),
{
    lemma_search_hits_sound(q, candidates);
    lemma_search_hits_complete(q, candidates);
}


proof fn lemma_concat_map_contains<A>(s: Seq<A>, f: spec_fn(A) -> Seq<char>, j: int)
    requires
        0 <= j < s.len(),
    ensures
        contains_spec(concat_map(s, f), f(s[j])),
    decreases s.len(),
{
    let front = concat_map(s.drop_last(), f);
    if j == s.len() - 1 {
        crate::text::lemma_contains_middle(front, f(s.last()), Seq::empty());
        assert(front + f(s.last()) + Seq::<char>::empty() =~= front + f(s.last()));
    } else {
        lemma_concat_map_contains(s.drop_last(), f, j);
        assert(s.drop_last()[j] == s[j]);
        crate::text::lemma_contains_within(Seq::empty(), front, f(s.last()), f(s[j]));
        assert(Seq::<char>::empty() + front + f(s.last()) =~= front + f(s.last()));
    }
}

/// `search_notes` finds every note it can read whose body, title or any one
/// of its tags, wherever it stands in the list, contains the lower-cased
/// query once lower-cased itself: the reply lists the note's line.
pub proof fn lemma_search_finds_every_mention(
    q: Seq<char>,
    cs: Seq<SearchCandidate>,
    k: int,
    i: int,
)
    requires
        0 <= k < cs.len(),
        cs[k].body is Some,
        contains_spec(spec_lowercase(cs[k].body.unwrap()@), q) || contains_spec(
            spec_lowercase(cs[k].summary.title@),
            q,
        ) || (0 <= i < cs[k].summary.tags@.len() && contains_spec(
            spec_lowercase(cs[k].summary.tags@[i]@),
            q,
        )),
    ensures
        search_hits(q, cs).contains(cs[k].summary),
        contains_spec(
            search_text(q, search_hits(q, cs)),
            "- **"@ + cs[k].summary.title@ + "** — `"@ + cs[k].summary.path@ + "`\n"@,
        ),
{
    if !contains_spec(spec_lowercase(cs[k].body.unwrap()@), q) && !contains_spec(
        spec_lowercase(cs[k].summary.title@),
        q,
    ) {
        assert(contains_spec(spec_lowercase(cs[k].summary.tags@[i]@), q));
    }
    assert(search_match(q, cs[k]));
    lemma_search_hits_complete(q, cs);
    let hits = search_hits(q, cs);
    let j = choose|j: int| 0 <= j < hits.len() && hits[j] == cs[k].summary;
    let f = |n: NoteSummary| search_line(n);
    lemma_concat_map_contains(hits, f, j);
    let head = "# Search results for '"@ + q + "'\n\n"@;
    crate::text::lemma_contains_within(head, concat_map(hits, f), Seq::empty(), f(hits[j]));
    assert(head + concat_map(hits, f) + Seq::<char>::empty() =~= search_text(q, hits));
}

/// Every note `search_notes` replies with is one it could read whose body,
/// title or some tag contains the lower-cased query once lower-cased itself.
pub proof fn lemma_search_hits_mention_query(q: Seq<char>, cs: Seq<SearchCandidate>, j: int)
    requires
        0 <= j < search_hits(q, cs).len(),
    ensures
        exists|k: int|
            0 <= k < cs.len() && cs[k].summary == search_hits(q, cs)[j] && cs[k].body is Some && (
            contains_spec(spec_lowercase(cs[k].body.unwrap()@), q) || contains_spec(
                spec_lowercase(cs[k].summary.title@),
                q,
            ) || exists|i: int|
                0 <= i < cs[k].summary.tags@.len() && contains_spec(
                    spec_lowercase(cs[k].summary.tags@[i]@),
                    q,
                )),
{
    lemma_search_hits_sound(q, cs);
    assert(matched_by(q, cs, search_hits(q, cs)[j]));
    let k = choose|k: int|
        0 <= k < cs.len() && search_match(q, cs[k]) && cs[k].summary == search_hits(q, cs)[j];
    assert(cs[k].summary == search_hits(q, cs)[j]);
}

/// The `read_note` reply for a note without frontmatter is its body; for one
/// with frontmatter, a block opened by `---` and closed by `---` and an empty
/// line, then the body. The block shows each field the frontmatter has,
/// whatever the others: a `title: ` line where there is a title, and, where
/// there are tags, a `tags: [...]` line with all of them joined by `, `.
pub proof fn lemma_note_reply_shows_frontmatter(n: Note)
    ensures
        n.frontmatter is None ==> note_text(n) == n.content@,
        n.frontmatter is Some ==> {
            let fm = n.frontmatter.unwrap();
            &&& crate::text::starts_with_spec(note_text(n), "---\n"@)
            &&& crate::text::ends_with_spec(note_text(n), "---\n\n"@ + n.content@)
            &&& fm.title is Some ==> contains_spec(
                note_text(n),
                "title: "@ + fm.title.unwrap()@ + "\n"@,
            )
            &&& fm.tags@.len() > 0 ==> contains_spec(
                note_text(n),
                "tags: ["@ + join_spec(views(fm.tags@), ", "@) + "]\n"@,
            )
            &&& forall|i: int|
                0 <= i < fm.tags@.len() ==> contains_spec(note_text(n), #[trigger] fm.tags@[i]@)
        },
{
    if n.frontmatter is Some {
        let fm = n.frontmatter.unwrap();
        let open = "---\n"@;
        let t = match fm.title {
            Some(x) => "title: "@ + x@ + "\n"@,
            None => Seq::empty(),
        };
        let g = if fm.tags@.len() > 0 {
            "tags: ["@ + join_spec(views(fm.tags@), ", "@) + "]\n"@
        } else {
            Seq::<char>::empty()
        };
        let close = "---\n\n"@ + n.content@;
        let text = note_text(n);
        assert(text =~= open + t + g + close);
        assert(text.take(open.len() as int) =~= open);
        assert(text.skip(text.len() - close.len()) =~= close);
        if fm.title is Some {
            crate::text::lemma_contains_middle(open, t, g + close);
            assert(open + t + (g + close) =~= text);
        }
        if fm.tags@.len() > 0 {
            crate::text::lemma_contains_middle(open + t, g, close);
            assert forall|i: int| 0 <= i < fm.tags@.len() implies contains_spec(
                text,
                #[trigger] fm.tags@[i]@,
            ) by {
                let v = views(fm.tags@);
                let j = join_spec(v, ", "@);
                assert(v[i] == fm.tags@[i]@);
                crate::text::lemma_join_contains_piece(v, ", "@, i);
                crate::text::lemma_contains_within("tags: ["@, j, "]\n"@, fm.tags@[i]@);
                crate::text::lemma_contains_within(open + t, g, close, fm.tags@[i]@);
            }
        }
    }
}

/// The `get_note_metadata` reply opens with the note's path and title, and
/// ends with its tags line: `(none)` exactly where it has no tags, else all
/// of its tags in backticks, joined by `, `. Every tag appears in it.
pub proof fn lemma_metadata_reply(s: NoteSummary)
    ensures
        crate::text::starts_with_spec(
            metadata_text(s),
            "# Metadata for `"@ + s.path@ + "`\n\n- **Title:** "@ + s.title@ + "\n"@,
        ),
        s.tags@.len() == 0 <==> crate::text::ends_with_spec(
            metadata_text(s),
            "- **Tags:** (none)\n"@,
        ),
        s.tags@.len() > 0 ==> crate::text::ends_with_spec(
            metadata_text(s),
            "- **Tags:** `"@ + join_spec(views(s.tags@), "`, `"@) + "`\n"@,
        ),
        forall|i: int| 0 <= i < s.tags@.len() ==> contains_spec(metadata_text(s), #[trigger] s.tags@[i]@),
{
    let head = "# Metadata for `"@ + s.path@ + "`\n\n- **Title:** "@ + s.title@ + "\n"@;
    let none = "- **Tags:** (none)\n"@;
    let j = join_spec(views(s.tags@), "`, `"@);
    let some = "- **Tags:** `"@ + j + "`\n"@;
    let text = metadata_text(s);
    reveal_strlit("- **Tags:** (none)\n");
    reveal_strlit("`\n");
    reveal_strlit("# Metadata for `");
    reveal_strlit("`\n\n");
    reveal_strlit("- **Title:** ");
    reveal_strlit("`\n\n- **Title:** ");
    reveal_strlit("\n");
    assert("`\n\n"@ + "- **Title:** "@ =~= "`\n\n- **Title:** "@);
    if s.tags@.len() == 0 {
        assert(text =~= head + none);
        assert(text.skip(text.len() - none.len()) =~= none);
        assert(text.take(head.len() as int) =~= head);
    } else {
        assert(text =~= head + some);
        assert(text.skip(text.len() - some.len()) =~= some);
        assert(text.take(head.len() as int) =~= head);
        if crate::text::ends_with_spec(text, none) {
            assert(text[text.len() - 2] == none[none.len() - 2]);
            assert(some[some.len() - 2] == '`');
            assert(text[text.len() - 2] == some[some.len() - 2]);
        }
        assert forall|i: int| 0 <= i < s.tags@.len() implies contains_spec(
            text,
            #[trigger] s.tags@[i]@,
        ) by {
            let v = views(s.tags@);
            assert(v[i] == s.tags@[i]@);
            crate::text::lemma_join_contains_piece(v, "`, `"@, i);
            crate::text::lemma_contains_within("- **Tags:** `"@, j, "`\n"@, s.tags@[i]@);
            crate::text::lemma_contains_within(head, some, Seq::empty(), s.tags@[i]@);
            assert(head + some + Seq::<char>::empty() =~= text);
        }
    }
}


/// The `list_notes` reply says "No notes found." exactly for an empty
/// listing; otherwise it has, for each note, a line that starts with its
/// title in bold and its path in backticks, and it names each of its tags.
pub proof fn lemma_note_list_reply(notes: Seq<NoteSummary>)
    ensures
        notes.len() == 0 ==> note_list_text(notes) == "No notes found."@,
        forall|j: int|
            0 <= j < notes.len() ==> contains_spec(
                note_list_text(notes),
                "- **"@ + (#[trigger] notes[j]).title@ + "** — `"@ + notes[j].path@ + "`"@,
            ),
        forall|j: int, i: int|
            0 <= j < notes.len() && 0 <= i < notes[j].tags@.len() ==> contains_spec(
                note_list_text(notes),
                (#[trigger] notes[j].tags@[i])@,
            ),
{
    let f = |n: NoteSummary| note_list_line(n);
    let head = "# Notes\n\n"@;
    assert forall|j: int| 0 <= j < notes.len() implies contains_spec(
        note_list_text(notes),
        "- **"@ + (#[trigger] notes[j]).title@ + "** — `"@ + notes[j].path@ + "`"@,
    ) by {
        let n = notes[j];
        let start = "- **"@ + n.title@ + "** — `"@ + n.path@;
        let tags = views(n.tags@);
        let rest = if tags.len() == 0 {
            Seq::<char>::empty()
        } else {
            " `"@ + join_spec(tags, "`, `"@) + "`"@
        };
        reveal_strlit("`");
        reveal_strlit("` `");
        reveal_strlit(" `");
        assert("` `"@ =~= "`"@ + " `"@);
        assert(tags_suffix(tags) =~= "`"@ + rest);
        assert(f(n) =~= (start + "`"@) + rest + "\n"@);
        crate::text::lemma_contains_middle(Seq::empty(), start + "`"@, rest + "\n"@);
        assert(Seq::<char>::empty() + (start + "`"@) + (rest + "\n"@) =~= f(n));
        lemma_concat_map_contains(notes, f, j);
        crate::text::lemma_contains_transitive(concat_map(notes, f), f(n), start + "`"@);
        crate::text::lemma_contains_within(
            head,
            concat_map(notes, f),
            Seq::empty(),
            start + "`"@,
        );
        assert(head + concat_map(notes, f) + Seq::<char>::empty() =~= note_list_text(notes));
    }
    assert forall|j: int, i: int|
        0 <= j < notes.len() && 0 <= i < notes[j].tags@.len() implies contains_spec(
        note_list_text(notes),
        (#[trigger] notes[j].tags@[i])@,
    ) by {
        let n = notes[j];
        let tags = views(n.tags@);
        let jt = join_spec(tags, "`, `"@);
        assert(tags[i] == n.tags@[i]@);
        crate::text::lemma_join_contains_piece(tags, "`, `"@, i);
        crate::text::lemma_contains_within("` `"@, jt, "`"@, n.tags@[i]@);
        crate::text::lemma_contains_within(
            "- **"@ + n.title@ + "** — `"@ + n.path@,
            tags_suffix(tags),
            "\n"@,
            n.tags@[i]@,
        );
        assert(f(n) =~= "- **"@ + n.title@ + "** — `"@ + n.path@ + tags_suffix(tags) + "\n"@);
        lemma_concat_map_contains(notes, f, j);
        let cm = concat_map(notes, f);
        crate::text::lemma_contains_transitive(cm, f(n), n.tags@[i]@);
        crate::text::lemma_contains_within(head, cm, Seq::empty(), n.tags@[i]@);
        assert(head + cm + Seq::<char>::empty() =~= note_list_text(notes));
    }
}

/// The `list_folders` reply has, for each folder it is given, the line with
/// its name in bold (`/` for the root) and its number of notes.
pub proof fn lemma_folder_reply_lists_every_folder(folders: Seq<(String, usize)>)
    ensures
        forall|j: int|
            0 <= j < folders.len() ==> contains_spec(
                folder_list_text(stable_sort_by_name(folders)),
                "- **"@ + (if (#[trigger] folders[j]).0@.len() == 0 {
                    "/"@
                } else {
                    folders[j].0@
                }) + "** — "@ + decimal(folders[j].1 as nat) + " notes\n"@,
            ),
{
    lemma_stable_sort_by_name(folders);
    let sorted = stable_sort_by_name(folders);
    let f = |x: (String, usize)| folder_line(x);
    let head = "# Vault Folders\n\n"@;
    assert forall|j: int| 0 <= j < folders.len() implies contains_spec(
        folder_list_text(sorted),
        "- **"@ + (if (#[trigger] folders[j]).0@.len() == 0 {
            "/"@
        } else {
            folders[j].0@
        }) + "** — "@ + decimal(folders[j].1 as nat) + " notes\n"@,
    ) by {
        assert(folders.to_multiset().count(folders[j]) > 0);
        assert(sorted.to_multiset().count(folders[j]) > 0);
        assert(sorted.contains(folders[j]));
        let k = choose|k: int| 0 <= k < sorted.len() && sorted[k] == folders[j];
        lemma_concat_map_contains(sorted, f, k);
        crate::text::lemma_contains_within(head, concat_map(sorted, f), Seq::empty(), f(sorted[k]));
        assert(head + concat_map(sorted, f) + Seq::<char>::empty() =~= folder_list_text(sorted));
    }
}

/// The `search_notes` reply names the lower-cased query: where nothing
/// matches it says so, else it opens with the results heading.
pub proof fn lemma_search_reply_shape(q: Seq<char>, hits: Seq<NoteSummary>)
    ensures
        hits.len() == 0 ==> search_text(q, hits) == "No notes matching '"@ + q + "'"@,
        hits.len() > 0 ==> crate::text::starts_with_spec(
            search_text(q, hits),
            "# Search results for '"@ + q + "'\n\n"@,
        ),
{
    if hits.len() > 0 {
        let head = "# Search results for '"@ + q + "'\n\n"@;
        let t = search_text(q, hits);
        assert(t.take(head.len() as int) =~= head);
    }
}

} // verus!
