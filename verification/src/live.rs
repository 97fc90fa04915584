//! Live reload: which bundle paths a change affects, the decisions of the
//! server's WebSocket session (a client says which path it watches; each
//! bundle change that touches that path is sent to it), and how a client page
//! reacts to a change message.
use vstd::prelude::*;
use vstd::string::*;

use crate::front_matter::opt_view;
use crate::json::{json_document, json_text, lemma_array_model, lemma_object_model, parse_json, print_json, JsonModel, JsonValue};
use crate::text::{
    chars_of, eq_str, is_prefix, starts_with_exec, trim_char, trim_end_char, trim_matches_char, trim_start_char, views,
};

verus! {

/// A change at path `changed` affects a watcher of path `watched` (both taken
/// without surrounding `/`s) when either is the bundle root, they are equal, or
/// one lies inside the other.
pub open spec fn affects(watched: Seq<char>, changed: Seq<char>) -> bool {
    let w = trim_char(watched, '/');
    let c = trim_char(changed, '/');
    ||| w.len() == 0
    ||| w == c
    ||| c.len() == 0
    ||| is_prefix(c.push('/'), w)
    ||| is_prefix(w.push('/'), c)
}

/// `s` with a `/` appended, as characters.
fn with_slash(s: &str) -> (r: Vec<char>)
    ensures
        r@ == s@.push('/'),
{
    let mut v = chars_of(s);
    v.push('/');
    v
}

/// Whether a change at `changed` affects a watcher of `watched` (see
/// [`affects`]).
pub fn is_affected(watched: &str, changed: &str) -> (r: bool)
    ensures
        r == affects(watched@, changed@),
{
    let w = trim_matches_char(watched, '/');
    let c = trim_matches_char(changed, '/');
    let wv = chars_of(w.as_str());
    let cv = chars_of(c.as_str());
    if wv.len() == 0 {
        return true;
    }
    if eq_str(w.as_str(), c.as_str()) {
        return true;
    }
    if cv.len() == 0 {
        return true;
    }
    let c_slash = with_slash(c.as_str());
    let w_slash = with_slash(w.as_str());
    starts_with_exec(&wv, &c_slash) || starts_with_exec(&cv, &w_slash)
}

/// Whether a change to any of `affected` affects the page at `current` (a URL
/// path), by the same rule the server uses.
pub fn page_is_affected(current: &str, affected: &Vec<String>) -> (r: bool)
    ensures
        r == exists|i: int| 0 <= i < affected@.len() && affects(current@, #[trigger] affected@[i]@),
{
    let mut i: usize = 0;
    while i < affected.len()
        invariant
            i <= affected@.len(),
            forall|k: int| 0 <= k < i ==> !affects(current@, #[trigger] affected@[k]@),
        decreases affected.len() - i,
    {
        if is_affected(current, affected[i].as_str()) {
            return true;
        }
        i = i + 1;
    }
    false
}

/// The value of the first member of `m` from position `i` on named `key`.
pub open spec fn member(m: Seq<(Seq<char>, JsonModel)>, key: Seq<char>, i: int) -> Option<JsonModel>
    decreases m.len() - i,
{
    if i < 0 || i >= m.len() {
        None
    } else if m[i].0 == key {
        Some(m[i].1)
    } else {
        member(m, key, i + 1)
    }
}

/// The string member `key` of `v` (`v.get(key).and_then(as_str)`): present when
/// `v` is an object whose member `key` is a string.
pub open spec fn str_member(v: JsonModel, key: Seq<char>) -> Option<Seq<char>> {
    match v {
        JsonModel::Object(m) => match member(m, key, 0) {
            Some(JsonModel::Str(s)) => Some(s),
            _ => None,
        },
        _ => None,
    }
}

/// The member `key` of `v` (`v.get(key)`).
pub open spec fn get_member(v: JsonModel, key: Seq<char>) -> Option<JsonModel> {
    match v {
        JsonModel::Object(m) => member(m, key, 0),
        _ => None,
    }
}

/// The member `key` of `v`, if `v` is an object that has one.
fn member_of<'a>(v: &'a JsonValue, key: &str) -> (r: Option<&'a JsonValue>)
    ensures
        match r {
            Some(x) => get_member(v@, key@) == Some(x@),
            None => get_member(v@, key@) is None,
        },
{
    match v {
        JsonValue::Object(m) => {
            let ghost mm = match v@ {
                JsonModel::Object(mm) => mm,
                _ => Seq::empty(),
            };
            assert(mm.len() == m@.len());
            let mut i: usize = 0;
            while i < m.len()
                invariant
                    i <= m@.len(),
                    mm.len() == m@.len(),
                    get_member(v@, key@) == member(mm, key@, i as int),
                    forall|k: int| 0 <= k < m@.len() ==> #[trigger] mm[k] == (m@[k].0@, m@[k].1@),
                decreases m.len() - i,
            {
                if eq_str(m[i].0.as_str(), key) {
                    return Some(&m[i].1);
                }
                i = i + 1;
            }
            None
        },
        _ => None,
    }
}

/// The string member `key` of `v` (see [`str_member`]).
pub fn str_member_of(v: &JsonValue, key: &str) -> (r: Option<String>)
    ensures
        opt_view(r) == str_member(v@, key@),
{
    match member_of(v, key) {
        Some(JsonValue::String(s)) => Some(s.clone()),
        _ => None,
    }
}

/// A text frame's effect on what the session watches: a `watch` message
/// (`{"type": "watch", "path": ...}`) sets the watched path (to none when it
/// has no string `path`); anything else, invalid JSON included, leaves it.
pub open spec fn watch_update(doc: Option<JsonModel>) -> Option<Option<Seq<char>>> {
    match doc {
        Some(v) => if str_member(v, "type"@) == Some("watch"@) {
            Some(str_member(v, "path"@))
        } else {
            None
        },
        None => None,
    }
}

/// The message telling a watcher of `watched` about a change to `paths`:
/// `{"type": "change", "path": watched, "paths": paths}`.
pub open spec fn change_message(watched: Seq<char>, paths: Seq<Seq<char>>) -> JsonModel {
    JsonModel::Object(
        seq![
            ("type"@, JsonModel::Str("change"@)),
            ("path"@, JsonModel::Str(watched)),
            ("paths"@, JsonModel::Array(paths.map_values(|p: Seq<char>| JsonModel::Str(p)))),
        ],
    )
}

/// Exec [`change_message`].
fn change_json(watched: &str, paths: &Vec<String>) -> (r: JsonValue)
    ensures
        r@ == change_message(watched@, views(paths@)),
{
    let mut items: Vec<JsonValue> = Vec::new();
    let mut i: usize = 0;
    while i < paths.len()
        invariant
            i <= paths@.len(),
            items@.len() == i,
            forall|k: int| 0 <= k < i ==> (#[trigger] items@[k])@ == JsonModel::Str(paths@[k]@),
        decreases paths.len() - i,
    {
        items.push(JsonValue::String(paths[i].clone()));
        i = i + 1;
    }
    let mut members: Vec<(String, JsonValue)> = Vec::new();
    members.push(("type".to_string(), JsonValue::String("change".to_string())));
    members.push(("path".to_string(), JsonValue::String(watched.to_string())));
    proof {
        lemma_array_model(items);
    }
    let arr = JsonValue::Array(items);
    assert(arr@ == JsonModel::Array(views(paths@).map_values(|p: Seq<char>| JsonModel::Str(p)))) by {
        assert(items@.map_values(|x: JsonValue| x@) =~= views(paths@).map_values(|p: Seq<char>| JsonModel::Str(p)));
    }
    members.push(("paths".to_string(), arr));
    proof {
        lemma_object_model(members);
    }
    let ghost mm = members@.map_values(|e: (String, JsonValue)| (e.0@, e.1@));
    let r = JsonValue::Object(members);
    proof {
        reveal_strlit("type");
        reveal_strlit("change");
        reveal_strlit("path");
        reveal_strlit("paths");
    }
    assert(mm =~= seq![
        ("type"@, JsonModel::Str("change"@)),
        ("path"@, JsonModel::Str(watched@)),
        ("paths"@, JsonModel::Array(views(paths@).map_values(|p: Seq<char>| JsonModel::Str(p)))),
    ]);
    r
}

/// What the server's WebSocket session hears.
#[derive(Debug)]
pub enum SocketEvent {
    /// A text frame from the client.
    Text(String),
    /// Another kind of frame from the client.
    Other,
    /// The client closed the socket (or it ended), or the change feed failed.
    Closed,
    /// The bundle changed at these paths.
    Change(Vec<String>),
}

/// What the session does next.
#[derive(Debug)]
pub enum SocketAction {
    /// Nothing; keep listening.
    Wait,
    /// Send this text frame to the client.
    Send(String),
    /// End the session.
    Stop,
}

/// The state of one WebSocket session: the path its client watches, if any.
#[derive(Debug)]
pub struct LiveSession {
    pub watched: Option<String>,
}

impl LiveSession {
    /// A session that watches nothing yet.
    pub fn new() -> (r: LiveSession)
        ensures
            r.watched is None,
    {
        LiveSession { watched: None }
    }

    /// Handle one event: a text frame may change the watched path; a bundle
    /// change that affects the watched path is sent to the client as a change
    /// message; a close ends the session.
    pub fn step(&mut self, event: SocketEvent) -> (r: SocketAction)
        ensures
            match event {
                SocketEvent::Text(t) => {
                    &&& r is Wait
                    &&& opt_view(final(self).watched) == match watch_update(json_document(t@)) {
                        Some(w) => w,
                        None => opt_view(old(self).watched),
                    }
                },
                SocketEvent::Other => r is Wait && opt_view(final(self).watched) == opt_view(old(self).watched),
                SocketEvent::Closed => r is Stop && opt_view(final(self).watched) == opt_view(old(self).watched),
                SocketEvent::Change(paths) => {
                    &&& opt_view(final(self).watched) == opt_view(old(self).watched)
                    &&& match old(self).watched {
                        Some(w) => if exists|i: int| 0 <= i < paths@.len() && affects(w@, #[trigger] paths@[i]@) {
                            r matches SocketAction::Send(m) && m@ == json_text(change_message(w@, views(paths@)))
                        } else {
                            r is Wait
                        },
                        None => r is Wait,
                    }
                },
            },
    {
        match event {
            SocketEvent::Text(t) => {
                let doc = parse_json(t.as_str());
                match doc {
                    Some(v) => {
                        proof {
                            reveal_strlit("watch");
                        }
                        let kind = str_member_of(&v, "type");
                        let is_watch = match &kind {
                            Some(k) => eq_str(k.as_str(), "watch"),
                            None => false,
                        };
                        if is_watch {
                            self.watched = str_member_of(&v, "path");
                        }
                    },
                    None => {},
                }
                SocketAction::Wait
            },
            SocketEvent::Other => SocketAction::Wait,
            SocketEvent::Closed => SocketAction::Stop,
            SocketEvent::Change(paths) => {
                match &self.watched {
                    Some(w) => {
                        if page_is_affected(w.as_str(), &paths) {
                            let msg = change_json(w.as_str(), &paths);
                            SocketAction::Send(print_json(&msg))
                        } else {
                            SocketAction::Wait
                        }
                    },
                    None => SocketAction::Wait,
                }
            },
        }
    }
}

/// The strings among `items`, in order (`filter_map(as_str)`).
pub open spec fn strings_of(items: Seq<JsonModel>) -> Seq<Seq<char>>
    decreases items.len(),
{
    if items.len() == 0 {
        seq![]
    } else {
        let rest = strings_of(items.drop_last());
        match items.last() {
            JsonModel::Str(s) => rest.push(s),
            _ => rest,
        }
    }
}

/// The paths a change message lists: the strings of its `paths` array (none if
/// it has no such array).
pub open spec fn message_paths(v: JsonModel) -> Seq<Seq<char>> {
    match get_member(v, "paths"@) {
        Some(JsonModel::Array(a)) => strings_of(a),
        _ => seq![],
    }
}

/// How a page reacts to a message from the server.
#[derive(Debug)]
pub struct Reaction {
    /// Re-fetch the navigation tree.
    pub reload_tree: bool,
    /// Re-fetch the current page.
    pub reload_page: bool,
}

/// A client page at `current` receiving the text frame `text`: a change
/// message (`"type": "change"`) always refreshes the tree, and refreshes the
/// page when one of its paths affects `current`; anything else is ignored.
pub open spec fn reaction_to(doc: Option<JsonModel>, current: Seq<char>) -> (bool, bool) {
    match doc {
        Some(v) => if str_member(v, "type"@) == Some("change"@) {
            (true, exists|i: int| 0 <= i < message_paths(v).len() && affects(current, #[trigger] message_paths(v)[i]))
        } else {
            (false, false)
        },
        None => (false, false),
    }
}

/// The strings of a JSON array, in order.
fn strings_in(items: &Vec<JsonValue>) -> (r: Vec<String>)
    ensures
        views(r@) == strings_of(items@.map_values(|x: JsonValue| x@)),
{
    let mut r: Vec<String> = Vec::new();
    let mut i: usize = 0;
    while i < items.len()
        invariant
            i <= items@.len(),
            views(r@) == strings_of(items@.map_values(|x: JsonValue| x@).take(i as int)),
        decreases items.len() - i,
    {
        let ghost m = items@.map_values(|x: JsonValue| x@);
        assert(m.take(i + 1).drop_last() =~= m.take(i as int));
        assert(m.take(i + 1).last() == items@[i as int]@);
        match &items[i] {
            JsonValue::String(s) => {
                let ghost before = views(r@);
                r.push(s.clone());
                assert(views(r@) =~= before.push(s@));
            },
            _ => {},
        }
        i = i + 1;
    }
    assert(items@.map_values(|x: JsonValue| x@).take(items@.len() as int) =~= items@.map_values(|x: JsonValue| x@));
    r
}

/// How a page at `current` reacts to the server's text frame `text` (see
/// [`reaction_to`]).
pub fn react_to_message(text: &str, current: &str) -> (r: Reaction)
    ensures
        (r.reload_tree, r.reload_page) == reaction_to(json_document(text@), current@),
{
    let doc = parse_json(text);
    match doc {
        Some(v) => {
            proof {
                reveal_strlit("change");
            }
            let kind = str_member_of(&v, "type");
            let is_change = match &kind {
                Some(k) => eq_str(k.as_str(), "change"),
                None => false,
            };
            if !is_change {
                return Reaction { reload_tree: false, reload_page: false };
            }
            let paths = match member_of(&v, "paths") {
                Some(x) => match x {
                    JsonValue::Array(a) => {
                        let p = strings_in(a);
                        proof {
                            lemma_array_model(*a);
                        }
                        p
                    },
                    _ => Vec::new(),
                },
                None => Vec::new(),
            };
            assert(views(paths@) == message_paths(v@));
            let page = page_is_affected(current, &paths);
            assert(page == exists|i: int| 0 <= i < message_paths(v@).len() && affects(current@, #[trigger] message_paths(v@)[i])) by {
                if page {
                    let i = choose|i: int| 0 <= i < paths@.len() && affects(current@, #[trigger] paths@[i]@);
                    assert(views(paths@)[i] == paths@[i]@);
                }
                if exists|i: int| 0 <= i < message_paths(v@).len() && affects(current@, #[trigger] message_paths(v@)[i]) {
                    let i = choose|i: int| 0 <= i < message_paths(v@).len() && affects(current@, #[trigger] message_paths(v@)[i]);
                    assert(views(paths@)[i] == paths@[i]@);
                }
            }
            Reaction { reload_tree: true, reload_page: page }
        },
        None => Reaction { reload_tree: false, reload_page: false },
    }
}


/// Whether a change affects a watcher does not depend on which of the two
/// paths is watched.
pub proof fn lemma_affects_symmetric(a: Seq<char>, b: Seq<char>)
    ensures
        affects(a, b) == affects(b, a),
{
}

/// A watcher of the bundle root is affected by every change, every watcher by
/// a change at the root, and every watcher by a change at its own path.
pub proof fn lemma_affects_root_and_self(w: Seq<char>, c: Seq<char>)
    ensures
        trim_char(w, '/').len() == 0 ==> affects(w, c),
        trim_char(c, '/').len() == 0 ==> affects(w, c),
        affects(w, w),
{
}


/// A path that neither starts nor ends with `c` is what trimming `c` leaves.
proof fn lemma_trim_char_unchanged(s: Seq<char>, c: char)
    requires
        s.len() > 0,
        s[0] != c,
        s.last() != c,
    ensures
        trim_char(s, c) == s,
{
    assert(trim_start_char(s, c) == s);
    assert(trim_end_char(s, c) == s);
}

/// What trimming the start leaves does not start with `c`.
proof fn lemma_trim_start_char_first(s: Seq<char>, c: char)
    ensures
        trim_start_char(s, c).len() > 0 ==> trim_start_char(s, c)[0] != c,
    decreases s.len(),
{
    if s.len() > 0 && s[0] == c {
        lemma_trim_start_char_first(s.drop_first(), c);
    }
}

/// What trimming the end leaves does not end with `c`, and starts as `s` does.
proof fn lemma_trim_end_char_ends(s: Seq<char>, c: char)
    ensures
        trim_end_char(s, c).len() > 0 ==> trim_end_char(s, c).last() != c && trim_end_char(s, c)[0] == s[0],
    decreases s.len(),
{
    if s.len() > 0 && s.last() == c {
        lemma_trim_end_char_ends(s.drop_last(), c);
    }
}

/// Trimming twice trims no more than trimming once.
proof fn lemma_trim_char_twice(s: Seq<char>, c: char)
    ensures
        trim_char(trim_char(s, c), c) == trim_char(s, c),
{
    let r = trim_char(s, c);
    lemma_trim_start_char_first(s, c);
    lemma_trim_end_char_ends(trim_start_char(s, c), c);
    if r.len() > 0 {
        lemma_trim_char_unchanged(r, c);
    } else {
        assert(trim_start_char(r, c) == r);
        assert(trim_end_char(r, c) == r);
    }
}

/// Surrounding `/`s do not matter: a change affects a watcher exactly when it
/// does with both paths trimmed of them.
pub proof fn lemma_affects_trimmed(w: Seq<char>, c: Seq<char>)
    ensures
        affects(w, c) == affects(trim_char(w, '/'), trim_char(c, '/')),
{
    lemma_trim_char_twice(w, '/');
    lemma_trim_char_twice(c, '/');
}

/// A change to a directory affects the watchers of every path nested in it, at
/// any depth, and a change anywhere inside a watched directory affects its
/// watchers: for a path `c` and any path `x` below it (`c/x`), each affects
/// the other. Paths that only share a beginning are not nested and do not
/// affect each other unless one is the root.
pub proof fn lemma_affects_nested(c: Seq<char>, x: Seq<char>, y: Seq<char>)
    requires
        c.len() > 0,
        c[0] != '/',
        c.last() != '/',
        x.len() > 0,
        x.last() != '/',
    ensures
        affects(c + seq!['/'] + x, c),
        affects(c, c + seq!['/'] + x),
        y.len() > 0 && y[0] != '/' && y.last() != '/' && !is_prefix(c.push('/'), y) && !is_prefix(y.push('/'), c)
            && y != c ==> !affects(y, c),
{
    let w = c + seq!['/'] + x;
    assert(w[0] == c[0]);
    assert(w.last() == x.last());
    lemma_trim_char_unchanged(w, '/');
    lemma_trim_char_unchanged(c, '/');
    assert(w.subrange(0, c.len() as int + 1) =~= c.push('/'));
    assert(is_prefix(c.push('/'), w));
    if y.len() > 0 && y[0] != '/' && y.last() != '/' {
        lemma_trim_char_unchanged(y, '/');
    }
}

/// A watcher of a concept's page is told about every change to the concept's
/// markdown file: for the file at `rel` named `name` that is a concept, the
/// path the change maps to affects a watcher of the concept's ID.
pub proof fn lemma_concept_watcher_notified(rel: Seq<char>, name: Seq<char>)
    requires
        name == crate::concept::last_segment(rel),
        crate::bundle::concept_id_of(rel, name) is Some,
    ensures
        affects(crate::bundle::concept_id_of(rel, name)->0, crate::bundle::affected_by(rel)),
{
    crate::bundle::lemma_concept_change_affects_id(rel, name);
    lemma_affects_root_and_self(crate::bundle::affected_by(rel), crate::bundle::affected_by(rel));
}

} // verus!
