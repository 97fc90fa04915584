//! The in-memory index of a bundle: its concepts (one per markdown file, keyed by
//! concept ID) and its directories, with the queries the server answers from it
//! (directory listings, keyword search, the navigation tree) and the mapping of
//! changed files to the bundle paths they affect.
use vstd::prelude::*;
use vstd::string::*;

use crate::concept::{concept_of, dir_of, last_segment, Concept, ConceptModel, ConceptSummary};
use crate::front_matter::{front_matter_split, opt_view, split_front_matter};
use crate::ranking::{
    building, concept_models, insert_ranked, into_summaries, is_ranking, lemma_building_done,
    lemma_building_insert, lemma_building_skip, lemma_building_start, Ranked, summary_models,
};
use crate::render::md_suffix;
use crate::text::{
    chars_of, contains, contains_exec, ends_with_exec, eq_str, insert_sorted_unique, is_suffix,
    join, join_strings, last_index_of, lemma_last_index_of, lowercase, rfind_char,
    string_of_range, strictly_sorted, to_lowercase, trim_char, trim_matches_char, views,
};

verus! {

/// A filesystem change, as the concept IDs and directory paths it affects
/// (relative to the bundle root; `""` is the root).
#[derive(Debug)]
pub struct ChangeEvent {
    pub paths: Vec<String>,
}

/// The scanned contents of a bundle.
#[derive(Debug)]
pub struct BundleIndex {
    /// The concepts, one per concept ID.
    pub concepts: Vec<Concept>,
    /// The directories, relative to the bundle root (`""` is the root).
    pub dirs: Vec<String>,
}

/// A bundle index as plain values.
pub struct IndexModel {
    pub concepts: Seq<ConceptModel>,
    pub dirs: Seq<Seq<char>>,
}

impl View for BundleIndex {
    type V = IndexModel;

    open spec fn view(&self) -> IndexModel {
        IndexModel { concepts: concept_models(self.concepts@), dirs: views(self.dirs@) }
    }
}

/// No two concepts share an ID and no directory is listed twice.
pub open spec fn index_wf(m: IndexModel) -> bool {
    &&& forall|i: int, j: int|
        0 <= i < j < m.concepts.len() ==> #[trigger] m.concepts[i].id != #[trigger] m.concepts[j].id
    &&& forall|i: int, j: int| 0 <= i < j < m.dirs.len() ==> #[trigger] m.dirs[i] != #[trigger] m.dirs[j]
}

/// The position of the last concept of `cs` with ID `id`, or -1.
pub open spec fn id_index(cs: Seq<ConceptModel>, id: Seq<char>) -> int
    decreases cs.len(),
{
    if cs.len() == 0 {
        -1
    } else if cs.last().id == id {
        cs.len() - 1
    } else {
        id_index(cs.drop_last(), id)
    }
}

/// What [`id_index`] finds.
pub proof fn lemma_id_index(cs: Seq<ConceptModel>, id: Seq<char>)
    ensures
        -1 <= id_index(cs, id) < cs.len(),
        id_index(cs, id) >= 0 ==> cs[id_index(cs, id)].id == id,
        forall|j: int| id_index(cs, id) < j < cs.len() ==> cs[j].id != id,
    decreases cs.len(),
{
    if cs.len() > 0 && cs.last().id != id {
        lemma_id_index(cs.drop_last(), id);
        assert forall|j: int| id_index(cs, id) < j < cs.len() implies cs[j].id != id by {
            if j < cs.len() - 1 {
                assert(cs[j] == cs.drop_last()[j]);
            }
        }
    }
}

/// The concepts after the concept `c` with ID `id` is added: it replaces the
/// concept with that ID, or comes last if there is none.
pub open spec fn with_concept(cs: Seq<ConceptModel>, id: Seq<char>, c: ConceptModel) -> Seq<ConceptModel> {
    let k = id_index(cs, id);
    if k >= 0 {
        cs.update(k, c)
    } else {
        cs.push(c)
    }
}

/// The directories after `d` is added.
pub open spec fn with_dir(ds: Seq<Seq<char>>, d: Seq<char>) -> Seq<Seq<char>> {
    if ds.contains(d) {
        ds
    } else {
        ds.push(d)
    }
}

impl BundleIndex {
    /// An index with the bundle root as its only directory and no concepts.
    pub fn new() -> (r: BundleIndex)
        ensures
            r@.concepts == Seq::<ConceptModel>::empty(),
            r@.dirs == seq![Seq::<char>::empty()],
    {
        let mut dirs: Vec<String> = Vec::new();
        dirs.push(String::new());
        let r = BundleIndex { concepts: Vec::new(), dirs };
        assert(r@.dirs =~= seq![Seq::<char>::empty()]);
        assert(r@.concepts =~= Seq::<ConceptModel>::empty());
        r
    }

    /// Record the directory `rel`.
    pub fn add_dir(&mut self, rel: String)
        ensures
            final(self)@.dirs == with_dir(old(self)@.dirs, rel@),
            final(self)@.concepts == old(self)@.concepts,
    {
        let mut i: usize = 0;
        while i < self.dirs.len()
            invariant
                i <= self.dirs@.len(),
                self@ == old(self)@,
                forall|j: int| 0 <= j < i ==> self@.dirs[j] != rel@,
            decreases self.dirs.len() - i,
        {
            if eq_str(self.dirs[i].as_str(), rel.as_str()) {
                assert(self@.dirs[i as int] == rel@);
                return;
            }
            i = i + 1;
        }
        let ghost before = self@;
        self.dirs.push(rel);
        assert(self@.dirs =~= before.dirs.push(rel@));
        assert(self@.concepts =~= before.concepts);
    }

    /// Add the concept with ID `id` parsed from `markdown`, replacing any
    /// concept with that ID.
    pub fn insert_concept(&mut self, id: &str, markdown: &str)
        ensures
            final(self)@.concepts == with_concept(old(self)@.concepts, id@, concept_of(id@, markdown@)),
            final(self)@.dirs == old(self)@.dirs,
    {
        let c = Concept::from_markdown(id, markdown);
        let ghost m0 = self@;
        proof {
            lemma_id_index(m0.concepts, id@);
        }
        let mut i = self.concepts.len();
        while i > 0
            invariant
                i <= self.concepts@.len(),
                self@ == m0,
                m0 == old(self)@,
                c@ == concept_of(id@, markdown@),
                forall|j: int| i <= j < m0.concepts.len() ==> m0.concepts[j].id != id@,
                -1 <= id_index(m0.concepts, id@) < m0.concepts.len(),
                id_index(m0.concepts, id@) >= 0 ==> m0.concepts[id_index(m0.concepts, id@)].id == id@,
                forall|j: int| id_index(m0.concepts, id@) < j < m0.concepts.len() ==> m0.concepts[j].id != id@,
            decreases i,
        {
            if eq_str(self.concepts[i - 1].id.as_str(), id) {
                assert(m0.concepts[i - 1].id == id@);
                assert(id_index(m0.concepts, id@) == i - 1);
                self.concepts.set(i - 1, c);
                assert(self@.concepts =~= m0.concepts.update(i - 1, concept_of(id@, markdown@)));
                assert(self@.dirs =~= m0.dirs);
                return;
            }
            i = i - 1;
        }
        assert(id_index(m0.concepts, id@) == -1);
        self.concepts.push(c);
        assert(self@.concepts =~= m0.concepts.push(concept_of(id@, markdown@)));
        assert(self@.dirs =~= m0.dirs);
    }

    /// The concept with ID `id`, if any.
    pub fn concept(&self, id: &str) -> (r: Option<&Concept>)
        ensures
            id_index(self@.concepts, id@) == -1 ==> r is None,
            id_index(self@.concepts, id@) >= 0 ==> r is Some && r->0@ == self@.concepts[id_index(self@.concepts, id@)],
    {
        proof {
            lemma_id_index(self@.concepts, id@);
        }
        let mut i = self.concepts.len();
        while i > 0
            invariant
                i <= self.concepts@.len(),
                forall|j: int| i <= j < self@.concepts.len() ==> self@.concepts[j].id != id@,
                -1 <= id_index(self@.concepts, id@) < self@.concepts.len(),
                id_index(self@.concepts, id@) >= 0 ==> self@.concepts[id_index(self@.concepts, id@)].id == id@,
                forall|j: int| id_index(self@.concepts, id@) < j < self@.concepts.len() ==> self@.concepts[j].id != id@,
            decreases i,
        {
            if eq_str(self.concepts[i - 1].id.as_str(), id) {
                assert(self@.concepts[i - 1].id == id@);
                return Some(&self.concepts[i - 1]);
            }
            i = i - 1;
        }
        None
    }

    /// Whether `dir` is a directory of the bundle.
    pub fn has_dir(&self, dir: &str) -> (r: bool)
        ensures
            r == self@.dirs.contains(dir@),
    {
        let mut i: usize = 0;
        while i < self.dirs.len()
            invariant
                i <= self.dirs@.len(),
                forall|j: int| 0 <= j < i ==> self@.dirs[j] != dir@,
            decreases self.dirs.len() - i,
        {
            if eq_str(self.dirs[i].as_str(), dir) {
                assert(self@.dirs[i as int] == dir@);
                return true;
            }
            i = i + 1;
        }
        false
    }
}

/// The directory that concept or directory `id` is in (empty at the root).
pub fn parent_of(id: &str) -> (r: &str)
    ensures
        r@ == dir_of(id@),
{
    let v = chars_of(id);
    match rfind_char(&v, '/') {
        Some(i) => {
            proof {
                lemma_last_index_of(v@, '/');
            }
            id.substring_char(0, i)
        },
        None => {
            proof {
                reveal_strlit("");
            }
            assert(""@ =~= dir_of(id@));
            ""
        },
    }
}

/// The last `/`-separated segment of `path`.
pub fn segment_name(path: &str) -> (r: String)
    ensures
        r@ == last_segment(path@),
{
    let v = chars_of(path);
    proof {
        lemma_last_index_of(v@, '/');
    }
    let n = v.len();
    let start = match rfind_char(&v, '/') {
        Some(i) => i + 1,
        None => 0,
    };
    string_of_range(&v, start, v.len())
}

/// A relative path from its components, joined with `/`.
pub fn rel_to_string(components: &Vec<String>) -> (r: String)
    ensures
        r@ == join(views(components@), seq!['/']),
{
    let sep = "/";
    proof {
        reveal_strlit("/");
    }
    assert(sep@ =~= seq!['/']);
    join_strings(components, sep)
}

/// A file name whose extension (`Path::extension`) is `md`: it ends in `.md`
/// and is not `.md` itself, which has no extension.
pub open spec fn has_md_extension(name: Seq<char>) -> bool {
    is_suffix(md_suffix(), name) && name.len() > 3
}

/// `index.md` or `log.md`: files read on demand for directory listings, never
/// concepts.
pub open spec fn is_reserved_name(name: Seq<char>) -> bool {
    name == "index.md"@ || name == "log.md"@
}

/// The concept ID of the regular file at relative path `rel` named `name`: the
/// path without `.md`, for a markdown file that is not reserved.
pub open spec fn concept_id_of(rel: Seq<char>, name: Seq<char>) -> Option<Seq<char>> {
    if has_md_extension(name) && !is_reserved_name(name) && is_suffix(md_suffix(), rel) {
        Some(rel.subrange(0, rel.len() - 3))
    } else {
        None
    }
}

/// Whether `name` has the extension `md`.
pub fn is_markdown_name(name: &str) -> (r: bool)
    ensures
        r == has_md_extension(name@),
{
    let v = chars_of(name);
    let md = chars_of(".md");
    proof {
        reveal_strlit(".md");
    }
    assert(md@ =~= md_suffix());
    ends_with_exec(&v, &md) && v.len() > 3
}

/// The concept ID of the regular file at relative path `rel` named `name`, if
/// it is a concept (see [`concept_id_of`]).
pub fn concept_id_for(rel: &str, name: &str) -> (r: Option<String>)
    ensures
        opt_view(r) == concept_id_of(rel@, name@),
{
    proof {
        reveal_strlit("index.md");
        reveal_strlit("log.md");
    }
    if !is_markdown_name(name) || eq_str(name, "index.md") || eq_str(name, "log.md") {
        return None;
    }
    let v = chars_of(rel);
    let md = chars_of(".md");
    proof {
        reveal_strlit(".md");
    }
    assert(md@ =~= md_suffix());
    if !ends_with_exec(&v, &md) {
        return None;
    }
    Some(string_of_range(&v, 0, v.len() - 3))
}

/// `index`
pub open spec fn index_stem() -> Seq<char> {
    seq!['i', 'n', 'd', 'e', 'x']
}

/// `log`
pub open spec fn log_stem() -> Seq<char> {
    seq!['l', 'o', 'g']
}

/// The bundle path a change to the file or directory at relative path `rel`
/// affects: a concept's ID; the directory of a changed `index.md` or `log.md`;
/// the path itself for anything else.
pub open spec fn affected_by(rel: Seq<char>) -> Seq<char> {
    if is_suffix(md_suffix(), rel) {
        let id = rel.subrange(0, rel.len() - 3);
        let name = last_segment(id);
        if name == index_stem() || name == log_stem() {
            dir_of(id)
        } else {
            id
        }
    } else {
        rel
    }
}

/// Exec [`affected_by`].
fn affected_path(rel: &str) -> (r: String)
    ensures
        r@ == affected_by(rel@),
{
    let v = chars_of(rel);
    let md = chars_of(".md");
    proof {
        reveal_strlit(".md");
    }
    assert(md@ =~= md_suffix());
    if !ends_with_exec(&v, &md) {
        return string_of_range(&v, 0, v.len());
    }
    let id = string_of_range(&v, 0, v.len() - 3);
    let name = segment_name(id.as_str());
    proof {
        reveal_strlit("index");
        reveal_strlit("log");
    }
    assert("index"@ =~= index_stem());
    assert("log"@ =~= log_stem());
    if eq_str(name.as_str(), "index") || eq_str(name.as_str(), "log") {
        let d = parent_of(id.as_str());
        return d.to_string();
    }
    id
}

/// No element of `s` occurs twice.
pub open spec fn distinct(s: Seq<Seq<char>>) -> bool {
    forall|i: int, j: int| 0 <= i < j < s.len() ==> s[i] != s[j]
}

/// The bundle paths that changes to the files and directories at `changed`
/// (each given by its components relative to the bundle root) affect, each
/// once, in no particular order.
pub fn affected_paths(changed: &Vec<Vec<String>>) -> (r: Vec<String>)
    ensures
        distinct(views(r@)),
        forall|x: Seq<char>|
            views(r@).contains(x) <==> exists|i: int|
                0 <= i < changed@.len() && x == affected_by(join(views(#[trigger] changed@[i]@), seq!['/'])),
{
    let mut out: Vec<String> = Vec::new();
    let mut i: usize = 0;
    while i < changed.len()
        invariant
            i <= changed@.len(),
            distinct(views(out@)),
            forall|x: Seq<char>|
                views(out@).contains(x) <==> exists|k: int|
                    0 <= k < i && x == affected_by(join(views(#[trigger] changed@[k]@), seq!['/'])),
        decreases changed.len() - i,
    {
        let rel = rel_to_string(&changed[i]);
        let a = affected_path(rel.as_str());
        let mut k: usize = 0;
        let mut seen = false;
        while k < out.len()
            invariant
                k <= out@.len(),
                !seen ==> forall|t: int| 0 <= t < k ==> views(out@)[t] != a@,
                seen ==> views(out@).contains(a@),
            decreases out.len() - k,
        {
            if eq_str(out[k].as_str(), a.as_str()) {
                assert(views(out@)[k as int] == a@);
                seen = true;
            }
            k = k + 1;
        }
        let ghost before = views(out@);
        if !seen {
            out.push(a);
            assert(views(out@) =~= before.push(a@));
        }
        assert forall|x: Seq<char>|
            views(out@).contains(x) <==> exists|k: int|
                0 <= k < i + 1 && x == affected_by(join(views(#[trigger] changed@[k]@), seq!['/'])) by {
            if views(out@).contains(x) && x != a@ {
                if !seen {
                    let t = choose|t: int| 0 <= t < views(out@).len() && views(out@)[t] == x;
                    assert(before[t] == x);
                }
            }
            if x == a@ {
                assert(x == affected_by(join(views(changed@[i as int]@), seq!['/'])));
                if !seen {
                    assert(views(out@)[before.len() as int] == x);
                }
            }
            if !seen {
                if before.contains(x) {
                    let t = choose|t: int| 0 <= t < before.len() && before[t] == x;
                    assert(views(out@)[t] == x);
                }
            }
        }
        i = i + 1;
    }
    out
}

/// The event to broadcast for the changes at `changed`: the paths they affect
/// (see [`affected_paths`]), or `None` when nothing is affected, which is when
/// nothing changed.
pub fn change_event(changed: &Vec<Vec<String>>) -> (r: Option<ChangeEvent>)
    ensures
        r is None <==> changed@.len() == 0,
        r matches Some(e) ==> {
            &&& distinct(views(e.paths@))
            &&& forall|x: Seq<char>|
                views(e.paths@).contains(x) <==> exists|i: int|
                    0 <= i < changed@.len() && x == affected_by(join(views(#[trigger] changed@[i]@), seq!['/']))
        },
{
    let paths = affected_paths(changed);
    if paths.len() == 0 {
        proof {
            if changed@.len() > 0 {
                let x = affected_by(join(views(changed@[0]@), seq!['/']));
                assert(views(paths@).contains(x));
            }
        }
        None
    } else {
        proof {
            assert(views(paths@)[0] == paths@[0]@);
            assert(views(paths@).contains(paths@[0]@));
        }
        Some(ChangeEvent { paths })
    }
}


/// A directory listing for the bundle browser.
#[derive(Debug)]
pub struct DirListing {
    /// Directory path relative to the bundle root (`""` for the root).
    pub path: String,
    /// The `index.md` body (front matter stripped), if the file exists.
    pub index_markdown: Option<String>,
    /// The `log.md` body (front matter stripped), if the file exists.
    pub log_markdown: Option<String>,
    pub concepts: Vec<ConceptSummary>,
    /// Names of the directories directly inside this one.
    pub subdirs: Vec<String>,
}

/// A node of the bundle's directory tree.
#[derive(Debug)]
pub struct TreeNode {
    /// Directory segment name (empty for the bundle root).
    pub name: String,
    /// Directory path relative to the bundle root (`""` for the root).
    pub path: String,
    /// Concepts directly inside this directory.
    pub concepts: Vec<ConceptSummary>,
    /// Nested subdirectories.
    pub children: Vec<TreeNode>,
}

/// Selects the concepts of `src` directly inside `dir`.
pub open spec fn in_dir(src: Seq<ConceptModel>, dir: Seq<char>) -> spec_fn(int) -> bool {
    |j: int| dir_of(src[j].id) == dir
}

/// Scores every concept alike.
pub open spec fn unscored() -> spec_fn(int) -> int {
    |j: int| 0int
}

/// `d` is a directory directly inside `parent`.
pub open spec fn is_child_dir(d: Seq<char>, parent: Seq<char>) -> bool {
    d.len() > 0 && dir_of(d) == parent
}

/// `names` are, in order and once each, the names of the directories of `dirs`
/// directly inside `parent`.
pub open spec fn lists_subdirs(names: Seq<Seq<char>>, dirs: Seq<Seq<char>>, parent: Seq<char>) -> bool {
    &&& strictly_sorted(names)
    &&& forall|x: Seq<char>|
        #[trigger] names.contains(x) <==> exists|i: int|
            0 <= i < dirs.len() && is_child_dir(#[trigger] dirs[i], parent) && x == last_segment(dirs[i])
}

/// The body of a reserved file with content `file`, front matter stripped.
pub open spec fn reserved_body(file: Option<Seq<char>>) -> Option<Seq<char>> {
    match file {
        Some(c) => Some(front_matter_split(c).1),
        None => None,
    }
}

/// Whether `d` is a directory directly inside `parent`.
fn is_child(d: &str, parent: &str) -> (r: bool)
    ensures
        r == is_child_dir(d@, parent@),
{
    let v = chars_of(d);
    v.len() > 0 && eq_str(parent_of(d), parent)
}

/// The body of a reserved file.
fn body_of(file: Option<String>) -> (r: Option<String>)
    ensures
        opt_view(r) == reserved_body(opt_view(file)),
{
    match file {
        Some(c) => {
            let (_, body) = split_front_matter(c.as_str());
            Some(body)
        },
        None => None,
    }
}

impl BundleIndex {
    /// The summaries of the concepts directly inside `dir`, ranked by
    /// lowercased title (then ID, then position).
    pub fn concepts_in(&self, dir: &str) -> (r: Vec<ConceptSummary>)
        ensures
            is_ranking(summary_models(r@), self@.concepts, in_dir(self@.concepts, dir@), unscored()),
    {
        let ghost src = self@.concepts;
        let ghost keep = in_dir(src, dir@);
        let ghost score = unscored();
        let mut out: Vec<Ranked> = Vec::new();
        proof {
            lemma_building_start(src, keep, score);
            assert(out@ =~= Seq::<Ranked>::empty());
        }
        let mut i: usize = 0;
        while i < self.concepts.len()
            invariant
                i <= self.concepts@.len(),
                src == self@.concepts,
                keep == in_dir(src, dir@),
                score == unscored(),
                building(out@, src, keep, score, i as int),
            decreases self.concepts.len() - i,
        {
            let c = &self.concepts[i];
            assert(src[i as int] == c@);
            if eq_str(parent_of(c.id.as_str()), dir) {
                let x = Ranked { score: 0, key: to_lowercase(c.title.as_str()), at: i, summary: c.summary() };
                let ghost gx = x;
                let ghost before = out@;
                insert_ranked(&mut out, x);
                proof {
                    lemma_building_insert(before, out@, gx, src, keep, score, i as int);
                }
            } else {
                proof {
                    lemma_building_skip(out@, src, keep, score, i as int);
                }
            }
            i = i + 1;
        }
        let ghost fin = out@;
        let r = into_summaries(out);
        proof {
            lemma_building_done(fin, r@, src, keep, score);
        }
        r
    }

    /// The paths of the directories directly inside `dir`, sorted.
    pub fn child_dirs(&self, dir: &str) -> (r: Vec<String>)
        ensures
            strictly_sorted(views(r@)),
            forall|x: Seq<char>|
                #![trigger views(r@).contains(x)]
                #![trigger self@.dirs.contains(x)]
                views(r@).contains(x) <==> (self@.dirs.contains(x) && is_child_dir(x, dir@)),
    {
        let mut out: Vec<String> = Vec::new();
        assert(views(out@) =~= Seq::<Seq<char>>::empty());
        let mut i: usize = 0;
        while i < self.dirs.len()
            invariant
                i <= self.dirs@.len(),
                strictly_sorted(views(out@)),
                forall|x: Seq<char>|
                    views(out@).contains(x) <==> exists|k: int|
                        0 <= k < i && #[trigger] self@.dirs[k] == x && is_child_dir(x, dir@),
            decreases self.dirs.len() - i,
        {
            let d = &self.dirs[i];
            assert(self@.dirs[i as int] == d@);
            if is_child(d.as_str(), dir) {
                let ghost before = views(out@);
                insert_sorted_unique(&mut out, d.clone());
                assert forall|x: Seq<char>|
                    views(out@).contains(x) <==> exists|k: int|
                        0 <= k < i + 1 && #[trigger] self@.dirs[k] == x && is_child_dir(x, dir@) by {
                    if before.contains(x) {
                        let k = choose|k: int| 0 <= k < i && #[trigger] self@.dirs[k] == x && is_child_dir(x, dir@);
                    }
                }
            } else {
                assert forall|x: Seq<char>|
                    views(out@).contains(x) <==> exists|k: int|
                        0 <= k < i + 1 && #[trigger] self@.dirs[k] == x && is_child_dir(x, dir@) by {
                    if exists|k: int| 0 <= k < i + 1 && #[trigger] self@.dirs[k] == x && is_child_dir(x, dir@) {
                        let k = choose|k: int| 0 <= k < i + 1 && #[trigger] self@.dirs[k] == x && is_child_dir(x, dir@);
                        assert(k < i);
                    }
                }
            }
            i = i + 1;
        }
        assert forall|x: Seq<char>| views(out@).contains(x) <==> (self@.dirs.contains(x) && is_child_dir(x, dir@)) by {
            if self@.dirs.contains(x) && is_child_dir(x, dir@) {
                let k = choose|k: int| 0 <= k < self@.dirs.len() && self@.dirs[k] == x;
            }
        }
        out
    }

    /// The names of the directories directly inside `dir`, sorted.
    pub fn subdir_names(&self, dir: &str) -> (r: Vec<String>)
        ensures
            lists_subdirs(views(r@), self@.dirs, dir@),
    {
        let mut out: Vec<String> = Vec::new();
        assert(views(out@) =~= Seq::<Seq<char>>::empty());
        let mut i: usize = 0;
        while i < self.dirs.len()
            invariant
                i <= self.dirs@.len(),
                strictly_sorted(views(out@)),
                forall|x: Seq<char>|
                    views(out@).contains(x) <==> exists|k: int|
                        0 <= k < i && is_child_dir(#[trigger] self@.dirs[k], dir@) && x == last_segment(self@.dirs[k]),
            decreases self.dirs.len() - i,
        {
            let d = &self.dirs[i];
            assert(self@.dirs[i as int] == d@);
            if is_child(d.as_str(), dir) {
                let ghost before = views(out@);
                let name = segment_name(d.as_str());
                insert_sorted_unique(&mut out, name);
                assert forall|x: Seq<char>|
                    views(out@).contains(x) <==> exists|k: int|
                        0 <= k < i + 1 && is_child_dir(#[trigger] self@.dirs[k], dir@) && x == last_segment(self@.dirs[k]) by {
                    if before.contains(x) {
                        let k = choose|k: int| 0 <= k < i && is_child_dir(#[trigger] self@.dirs[k], dir@) && x == last_segment(self@.dirs[k]);
                    }
                }
            } else {
                assert forall|x: Seq<char>|
                    views(out@).contains(x) <==> exists|k: int|
                        0 <= k < i + 1 && is_child_dir(#[trigger] self@.dirs[k], dir@) && x == last_segment(self@.dirs[k]) by {
                    if exists|k: int| 0 <= k < i + 1 && is_child_dir(#[trigger] self@.dirs[k], dir@) && x == last_segment(self@.dirs[k]) {
                        let k = choose|k: int| 0 <= k < i + 1 && is_child_dir(#[trigger] self@.dirs[k], dir@) && x == last_segment(self@.dirs[k]);
                        assert(k < i);
                    }
                }
            }
            i = i + 1;
        }
        out
    }

    /// The listing of directory `dir` (surrounding `/`s ignored), given the
    /// contents of its `index.md` and `log.md` where they exist; `None` when
    /// the bundle has no such directory.
    pub fn list_dir(&self, dir: &str, index_file: Option<String>, log_file: Option<String>) -> (r: Option<DirListing>)
        ensures
            r is None <==> !self@.dirs.contains(trim_char(dir@, '/')),
            r matches Some(l) ==> {
                &&& l.path@ == trim_char(dir@, '/')
                &&& opt_view(l.index_markdown) == reserved_body(opt_view(index_file))
                &&& opt_view(l.log_markdown) == reserved_body(opt_view(log_file))
                &&& is_ranking(
                    summary_models(l.concepts@),
                    self@.concepts,
                    in_dir(self@.concepts, trim_char(dir@, '/')),
                    unscored(),
                )
                &&& lists_subdirs(views(l.subdirs@), self@.dirs, trim_char(dir@, '/'))
            },
    {
        let d = trim_matches_char(dir, '/');
        if !self.has_dir(d.as_str()) {
            return None;
        }
        let concepts = self.concepts_in(d.as_str());
        let subdirs = self.subdir_names(d.as_str());
        Some(DirListing {
            path: d,
            index_markdown: body_of(index_file),
            log_markdown: body_of(log_file),
            concepts,
            subdirs,
        })
    }
}


/// `q` occurs in the lowercase form of `s`.
pub open spec fn lower_contains(s: Seq<char>, q: Seq<char>) -> bool {
    contains(lowercase(s), q)
}

/// `q` occurs in the lowercase form of some tag.
pub open spec fn some_tag_contains(tags: Seq<Seq<char>>, q: Seq<char>) -> bool {
    exists|k: int| 0 <= k < tags.len() && lower_contains(#[trigger] tags[k], q)
}

/// `q` occurs in the lowercase form of the description, if there is one.
pub open spec fn description_contains(d: Option<Seq<char>>, q: Seq<char>) -> bool {
    match d {
        Some(t) => lower_contains(t, q),
        None => false,
    }
}

/// A concept matches the lowercase query `q` when `q` occurs in its title,
/// type, description or one of its tags, each lowercased; the ID is not searched.
pub open spec fn matches_query(c: ConceptModel, q: Seq<char>) -> bool {
    lower_contains(c.title, q) || lower_contains(c.concept_type, q)
        || description_contains(c.description, q) || some_tag_contains(c.tags, q)
}

/// Selects the concepts of `src` that match the lowercase query `q`.
pub open spec fn matching(src: Seq<ConceptModel>, q: Seq<char>) -> spec_fn(int) -> bool {
    |j: int| matches_query(src[j], q)
}

/// Whether `q` occurs in `s` lowercased.
pub fn lower_contains_exec(s: &str, q: &Vec<char>) -> (r: bool)
    ensures
        r == lower_contains(s@, q@),
{
    let l = to_lowercase(s);
    let v = chars_of(l.as_str());
    contains_exec(&v, q)
}

/// Whether `q` occurs in some tag lowercased.
pub fn some_tag_contains_exec(tags: &Vec<String>, q: &Vec<char>) -> (r: bool)
    ensures
        r == some_tag_contains(views(tags@), q@),
{
    let mut i: usize = 0;
    while i < tags.len()
        invariant
            i <= tags@.len(),
            forall|k: int| 0 <= k < i ==> !lower_contains(#[trigger] views(tags@)[k], q@),
        decreases tags.len() - i,
    {
        if lower_contains_exec(tags[i].as_str(), q) {
            assert(lower_contains(views(tags@)[i as int], q@));
            return true;
        }
        i = i + 1;
    }
    false
}

/// Whether `q` occurs in the description lowercased.
pub fn description_contains_exec(d: &Option<String>, q: &Vec<char>) -> (r: bool)
    ensures
        r == description_contains(opt_view(*d), q@),
{
    match d {
        Some(t) => lower_contains_exec(t.as_str(), q),
        None => false,
    }
}

/// Whether `c` matches the lowercase query `q` (see [`matches_query`]).
fn concept_matches(c: &Concept, q: &Vec<char>) -> (r: bool)
    ensures
        r == matches_query(c@, q@),
{
    lower_contains_exec(c.title.as_str(), q)
        || lower_contains_exec(c.concept_type.as_str(), q) || description_contains_exec(&c.description, q)
        || some_tag_contains_exec(&c.tags, q)
}

/// The longest of `ds`.
pub open spec fn longest(ds: Seq<Seq<char>>) -> nat
    decreases ds.len(),
{
    if ds.len() == 0 {
        0
    } else {
        let rest = longest(ds.drop_last());
        if ds.last().len() > rest {
            ds.last().len()
        } else {
            rest
        }
    }
}

/// No element of `ds` is longer than [`longest`].
proof fn lemma_longest(ds: Seq<Seq<char>>)
    ensures
        forall|i: int| 0 <= i < ds.len() ==> (#[trigger] ds[i]).len() <= longest(ds),
    decreases ds.len(),
{
    if ds.len() > 0 {
        lemma_longest(ds.drop_last());
        assert forall|i: int| 0 <= i < ds.len() implies (#[trigger] ds[i]).len() <= longest(ds) by {
            if i < ds.len() - 1 {
                assert(ds[i] == ds.drop_last()[i]);
            }
        }
    }
}

/// A directory inside `parent` has a longer path.
proof fn lemma_child_longer(d: Seq<char>, parent: Seq<char>)
    requires
        is_child_dir(d, parent),
    ensures
        parent.len() < d.len(),
{
    lemma_last_index_of(d, '/');
}

/// How deep the tree under `dir` can go: one level for each character a
/// directory of the bundle can be longer than `dir`, and one more.
pub open spec fn tree_depth(m: IndexModel, dir: Seq<char>) -> nat {
    if dir.len() <= longest(m.dirs) {
        (longest(m.dirs) + 1 - dir.len()) as nat
    } else {
        1
    }
}

/// `node` is the tree of directory `dir` of the bundle `m`: named by the last
/// segment of `dir`, listing the concepts directly inside `dir` as
/// [`BundleIndex::concepts_in`] does, with the trees of the directories directly
/// inside `dir` as children, sorted by path. `depth` bounds the tree's height.
pub open spec fn tree_of(node: TreeNode, m: IndexModel, dir: Seq<char>, depth: nat) -> bool
    decreases depth,
{
    if depth == 0 {
        false
    } else {
        let paths = node.children@.map_values(|c: TreeNode| c.path@);
        &&& node.path@ == dir
        &&& node.name@ == last_segment(dir)
        &&& is_ranking(summary_models(node.concepts@), m.concepts, in_dir(m.concepts, dir), unscored())
        &&& strictly_sorted(paths)
        &&& forall|x: Seq<char>|
            #![trigger paths.contains(x)]
            #![trigger m.dirs.contains(x)]
            paths.contains(x) <==> (m.dirs.contains(x) && is_child_dir(x, dir))
        &&& forall|i: int|
            0 <= i < node.children@.len() ==> tree_of(
                #[trigger] node.children@[i],
                m,
                node.children@[i].path@,
                (depth - 1) as nat,
            )
    }
}

/// A bound on a tree's height is a bound for any larger height too.
pub proof fn lemma_tree_depth(node: TreeNode, m: IndexModel, dir: Seq<char>, d1: nat, d2: nat)
    requires
        d1 <= d2,
        tree_of(node, m, dir, d1),
    ensures
        tree_of(node, m, dir, d2),
    decreases d1,
{
    assert forall|i: int| 0 <= i < node.children@.len() implies tree_of(
        #[trigger] node.children@[i],
        m,
        node.children@[i].path@,
        (d2 - 1) as nat,
    ) by {
        lemma_tree_depth(node.children@[i], m, node.children@[i].path@, (d1 - 1) as nat, (d2 - 1) as nat);
    }
}

impl BundleIndex {
    /// The summaries of the concepts matching `query` (title, type,
    /// description or a tag contains it, case-insensitively; the ID is not
    /// searched), ranked by
    /// lowercased title (then ID, then position).
    pub fn search(&self, query: &str) -> (r: Vec<ConceptSummary>)
        ensures
            is_ranking(summary_models(r@), self@.concepts, matching(self@.concepts, lowercase(query@)), unscored()),
    {
        let ql = to_lowercase(query);
        let q = chars_of(ql.as_str());
        let ghost src = self@.concepts;
        let ghost keep = matching(src, q@);
        let ghost score = unscored();
        let mut out: Vec<Ranked> = Vec::new();
        proof {
            lemma_building_start(src, keep, score);
            assert(out@ =~= Seq::<Ranked>::empty());
        }
        let mut i: usize = 0;
        while i < self.concepts.len()
            invariant
                i <= self.concepts@.len(),
                src == self@.concepts,
                keep == matching(src, q@),
                score == unscored(),
                building(out@, src, keep, score, i as int),
            decreases self.concepts.len() - i,
        {
            let c = &self.concepts[i];
            assert(src[i as int] == c@);
            if concept_matches(c, &q) {
                let x = Ranked { score: 0, key: to_lowercase(c.title.as_str()), at: i, summary: c.summary() };
                let ghost gx = x;
                let ghost before = out@;
                insert_ranked(&mut out, x);
                proof {
                    lemma_building_insert(before, out@, gx, src, keep, score, i as int);
                }
            } else {
                proof {
                    lemma_building_skip(out@, src, keep, score, i as int);
                }
            }
            i = i + 1;
        }
        let ghost fin = out@;
        let r = into_summaries(out);
        proof {
            lemma_building_done(fin, r@, src, keep, score);
        }
        r
    }

    /// The tree of directory `dir` (any path: one that is not a directory of
    /// the bundle gets the concepts and directories directly inside it all
    /// the same).
    pub fn build_tree(&self, dir: &str) -> (r: TreeNode)
        ensures
            tree_of(r, self@, dir@, tree_depth(self@, dir@)),
        decreases longest(self@.dirs) - dir@.len(),
    {
        proof {
            lemma_longest(self@.dirs);
        }
        let concepts = self.concepts_in(dir);
        let kids = self.child_dirs(dir);
        let ghost top = tree_depth(self@, dir@);
        let mut children: Vec<TreeNode> = Vec::new();
        let mut i: usize = 0;
        while i < kids.len()
            invariant
                i <= kids@.len(),
                children@.len() == i,
                top == tree_depth(self@, dir@),
                forall|x: Seq<char>|
                    #![trigger views(kids@).contains(x)]
                    #![trigger self@.dirs.contains(x)]
                    views(kids@).contains(x) <==> (self@.dirs.contains(x) && is_child_dir(x, dir@)),
                forall|t: int|
                    0 <= t < i ==> (#[trigger] children@[t]).path@ == kids@[t]@ && tree_of(
                        children@[t],
                        self@,
                        kids@[t]@,
                        (top - 1) as nat,
                    ),
            decreases kids.len() - i,
        {
            let k = &kids[i];
            assert(views(kids@)[i as int] == k@);
            assert(views(kids@).contains(k@));
            proof {
                lemma_child_longer(k@, dir@);
                lemma_longest(self@.dirs);
                assert(self@.dirs.contains(k@));
                let j = choose|j: int| 0 <= j < self@.dirs.len() && self@.dirs[j] == k@;
                assert(self@.dirs[j].len() <= longest(self@.dirs));
                assert(dir@.len() < longest(self@.dirs));
            }
            let c = self.build_tree(k.as_str());
            proof {
                lemma_tree_depth(c, self@, k@, (longest(self@.dirs) + 1 - k@.len()) as nat, (top - 1) as nat);
            }
            children.push(c);
            i = i + 1;
        }
        let name = segment_name(dir);
        let r = TreeNode { name, path: dir.to_string(), concepts, children };
        assert(r.children@.map_values(|c: TreeNode| c.path@) =~= views(kids@));
        r
    }

    /// The whole directory tree, from the bundle root down.
    pub fn tree(&self) -> (r: TreeNode)
        ensures
            tree_of(r, self@, Seq::empty(), (longest(self@.dirs) + 1) as nat),
    {
        let root = String::new();
        assert(root@ =~= Seq::<char>::empty());
        self.build_tree(root.as_str())
    }
}


/// A new index holds no concept twice and no directory twice.
pub proof fn lemma_new_index_wf()
    ensures
        index_wf(IndexModel { concepts: Seq::empty(), dirs: seq![Seq::<char>::empty()] }),
{
}

/// Adding a concept or a directory keeps every concept ID and every directory
/// listed once.
pub proof fn lemma_index_wf_kept(m: IndexModel, id: Seq<char>, markdown: Seq<char>, d: Seq<char>)
    requires
        index_wf(m),
    ensures
        index_wf(IndexModel { concepts: with_concept(m.concepts, id, concept_of(id, markdown)), dirs: m.dirs }),
        index_wf(IndexModel { concepts: m.concepts, dirs: with_dir(m.dirs, d) }),
{
    lemma_id_index(m.concepts, id);
    let c = concept_of(id, markdown);
    let cs = with_concept(m.concepts, id, c);
    assert forall|i: int, j: int| 0 <= i < j < cs.len() implies #[trigger] cs[i].id != #[trigger] cs[j].id by {
        let k = id_index(m.concepts, id);
        if k < 0 {
            if j == m.concepts.len() {
                assert(cs[i] == m.concepts[i]);
            } else {
                assert(cs[i] == m.concepts[i] && cs[j] == m.concepts[j]);
            }
        } else if i == k {
            assert(cs[j] == m.concepts[j]);
            assert(m.concepts[i].id != m.concepts[j].id);
        } else if j == k {
            assert(cs[i] == m.concepts[i]);
            assert(m.concepts[i].id != m.concepts[j].id);
        } else {
            assert(cs[i] == m.concepts[i] && cs[j] == m.concepts[j]);
        }
    }
    let ds = with_dir(m.dirs, d);
    assert forall|i: int, j: int| 0 <= i < j < ds.len() implies #[trigger] ds[i] != #[trigger] ds[j] by {
        if !m.dirs.contains(d) && j == m.dirs.len() {
            assert(ds[i] == m.dirs[i]);
            assert(m.dirs[i] != d);
        }
    }
}

/// What a lookup finds after a concept is added: the added concept under its
/// own ID, and under any other ID what it found before.
pub proof fn lemma_lookup_after_insert(cs: Seq<ConceptModel>, id: Seq<char>, c: ConceptModel, other: Seq<char>)
    requires
        c.id == id,
    ensures
        id_index(with_concept(cs, id, c), id) >= 0,
        with_concept(cs, id, c)[id_index(with_concept(cs, id, c), id)] == c,
        other != id ==> id_index(with_concept(cs, id, c), other) == id_index(cs, other),
        other != id && id_index(cs, other) >= 0 ==> with_concept(cs, id, c)[id_index(cs, other)] == cs[id_index(cs, other)],
{
    lemma_id_index(cs, id);
    lemma_id_index(cs, other);
    let cs2 = with_concept(cs, id, c);
    lemma_id_index(cs2, id);
    lemma_id_index(cs2, other);
    let k = id_index(cs, id);
    if k >= 0 {
        assert(cs2[k].id == id);
        assert(id_index(cs2, id) >= k);
        assert forall|j: int| k < j < cs2.len() implies cs2[j].id != id by {
            assert(cs2[j] == cs[j]);
        }
        if other != id {
            let ko = id_index(cs, other);
            let ko2 = id_index(cs2, other);
            if ko2 >= 0 {
                assert(ko2 != k);
                assert(cs2[ko2] == cs[ko2]);
            }
            if ko >= 0 {
                assert(ko != k);
                assert(cs2[ko] == cs[ko]);
            }
            assert forall|j: int| 0 <= j < cs.len() && j != k implies cs2[j] == cs[j] by {}
        }
    } else {
        assert(cs2[cs.len() as int] == c);
        if other != id {
            let ko = id_index(cs, other);
            let ko2 = id_index(cs2, other);
            if ko2 >= 0 {
                assert(ko2 < cs.len());
                assert(cs2[ko2] == cs[ko2]);
            }
            if ko >= 0 {
                assert(cs2[ko] == cs[ko]);
            }
        }
    }
}

/// The listing of a directory and the tree node of that directory list the
/// same concepts in the same order.
pub proof fn lemma_tree_agrees_with_listing(node: TreeNode, m: IndexModel, dir: Seq<char>, depth: nat, listed: Seq<ConceptSummary>)
    requires
        tree_of(node, m, dir, depth),
        is_ranking(summary_models(listed), m.concepts, in_dir(m.concepts, dir), unscored()),
    ensures
        summary_models(node.concepts@) == summary_models(listed),
{
    crate::ranking::lemma_ranking_unique(
        summary_models(node.concepts@),
        summary_models(listed),
        m.concepts,
        in_dir(m.concepts, dir),
        unscored(),
    );
}

/// A change to the markdown file of a concept affects that concept's ID: for
/// the file at `rel` named `name` (the last segment of `rel`) that is the
/// concept `id`, the change maps to `id`.
pub proof fn lemma_concept_change_affects_id(rel: Seq<char>, name: Seq<char>)
    requires
        name == last_segment(rel),
        concept_id_of(rel, name) is Some,
    ensures
        affected_by(rel) == concept_id_of(rel, name)->0,
{
    reveal_strlit("index.md");
    reveal_strlit("log.md");
    let id = rel.subrange(0, rel.len() - 3);
    lemma_last_index_of(rel, '/');
    lemma_last_index_of(id, '/');
    let k = last_index_of(rel, '/');
    let kid = last_index_of(id, '/');
    assert(rel.subrange(rel.len() - 3, rel.len() as int) =~= md_suffix());
    assert(name.len() > 3);
    assert(k < rel.len() - 3);
    if k >= 0 {
        assert(id[k] == '/');
    }
    assert(kid == k) by {
        if kid > k {
            assert(rel[kid] == id[kid]);
        }
        if kid < k {
            assert(id[k] == rel[k]);
        }
    }
    let seg = last_segment(id);
    assert(seg =~= name.subrange(0, name.len() - 3));
    if seg == index_stem() {
        assert(name =~= seg + md_suffix());
        assert(name =~= "index.md"@);
    }
    if seg == log_stem() {
        assert(name =~= seg + md_suffix());
        assert(name =~= "log.md"@);
    }
}

} // verus!
