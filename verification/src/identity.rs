//! Whom a request is counted for: its session, its agent and its project.

use vstd::prelude::*;

use crate::json;
use crate::json::{Json, JsonView};
use crate::patterns;
use crate::text;

verus! {

broadcast use crate::json::group_json_view;

/// The header that names the session, with underscores for its hyphens.
pub const SESSION_HEADER: &'static str = "x_claude_code_session_id";

/// The header that names the agent, with underscores for its hyphens.
pub const AGENT_HEADER: &'static str = "x_claude_code_agent_id";

/// The header that names the agent which started this one, with underscores for its hyphens.
pub const PARENT_HEADER: &'static str = "x_claude_code_parent_agent_id";

/// The project that is given where none is found.
pub const UNKNOWN: &'static str = "unknown";

/// Whom a request is counted for.
#[derive(Clone, Debug)]
pub struct Identity {
    pub session_id: String,
    pub agent_id: String,
    pub parent_agent_id: String,
    pub project: String,
}

/// What an identity holds.
#[verifier::ext_equal]
pub struct IdentityView {
    pub session_id: Seq<char>,
    pub agent_id: Seq<char>,
    pub parent_agent_id: Seq<char>,
    pub project: Seq<char>,
}

impl View for Identity {
    type V = IdentityView;

    open spec fn view(&self) -> IdentityView {
        IdentityView {
            session_id: self.session_id@,
            agent_id: self.agent_id@,
            parent_agent_id: self.parent_agent_id@,
            project: self.project@,
        }
    }
}

impl Default for Identity {
    fn default() -> (r: Identity)
        ensures
            r.session_id@.len() == 0,
            r.agent_id@.len() == 0,
            r.parent_agent_id@.len() == 0,
            r.project@.len() == 0,
    {
        Identity {
            session_id: String::new(),
            agent_id: String::new(),
            parent_agent_id: String::new(),
            project: String::new(),
        }
    }
}

/// The value of the header `name`; empty where there is none.
pub open spec fn header_of(headers: JsonView, name: Seq<char>) -> Seq<char> {
    match json::text_field(headers, name) {
        Some(t) => t,
        None => Seq::empty(),
    }
}

/// The value of the header `name`; empty where there is none.
pub fn header(headers: &Json, name: &str) -> (r: String)
    ensures
        r@ == header_of(headers@, name@),
{
    match headers.get_text(name) {
        Some(t) => t.to_owned(),
        None => String::new(),
    }
}

/// The session that the headers name.
pub fn session_id(headers: &Json) -> (r: String)
    ensures
        r@ == session_of(headers@),
{
    header(headers, text::kebab(SESSION_HEADER).as_str())
}

/// The agent that the headers name, and the one that started it.
pub fn agent_ids(headers: &Json) -> (r: (String, String))
    ensures
        r.0@ == header_of(headers@, text::kebab_of(AGENT_HEADER@)),
        r.1@ == header_of(headers@, text::kebab_of(PARENT_HEADER@)),
{
    (
        header(headers, text::kebab(AGENT_HEADER).as_str()),
        header(headers, text::kebab(PARENT_HEADER).as_str()),
    )
}

/// The projects that sessions were found to work on.
#[derive(Debug)]
pub struct ProjectCache {
    entries: Vec<(String, String)>,
}

/// The position of the first entry for the session, counted from `i`.
spec fn entry_of(e: Seq<(String, String)>, sid: Seq<char>, i: int) -> Option<int>
    decreases e.len() - i,
{
    if i < 0 || i >= e.len() {
        None
    } else if e[i].0@ == sid {
        Some(i)
    } else {
        entry_of(e, sid, i + 1)
    }
}

proof fn lemma_entry_found(e: Seq<(String, String)>, sid: Seq<char>, i: int, j: int)
    requires
        0 <= i <= j < e.len(),
        e[j].0@ == sid,
        forall|m: int| i <= m < j ==> (#[trigger] e[m]).0@ != sid,
    ensures
        entry_of(e, sid, i) == Some(j),
    decreases j - i,
{
    if i < j {
        assert(e[i].0@ != sid);
        lemma_entry_found(e, sid, i + 1, j);
    }
}

proof fn lemma_entry_absent(e: Seq<(String, String)>, sid: Seq<char>, i: int)
    requires
        0 <= i,
        forall|m: int| i <= m < e.len() ==> (#[trigger] e[m]).0@ != sid,
    ensures
        entry_of(e, sid, i) is None,
    decreases e.len() - i,
{
    if i < e.len() {
        assert(e[i].0@ != sid);
        lemma_entry_absent(e, sid, i + 1);
    }
}

proof fn lemma_entry_pushed(e: Seq<(String, String)>, x: (String, String), sid: Seq<char>, i: int)
    requires
        0 <= i <= e.len(),
    ensures
        entry_of(e.push(x), sid, i) == (match entry_of(e, sid, i) {
            Some(j) => Some(j),
            None => if x.0@ == sid {
                Some(e.len() as int)
            } else {
                None
            },
        }),
        entry_of(e, sid, i) matches Some(j) ==> 0 <= j < e.len(),
    decreases e.len() - i,
{
    let f = e.push(x);
    if i < e.len() {
        assert(f[i] == e[i]);
        lemma_entry_pushed(e, x, sid, i + 1);
    } else {
        assert(f[i] == x);
        assert(entry_of(f, sid, i + 1) is None);
    }
}

impl View for ProjectCache {
    type V = Map<Seq<char>, Seq<char>>;

    closed spec fn view(&self) -> Map<Seq<char>, Seq<char>> {
        let e = self.entries@;
        Map::new(
            |sid: Seq<char>| entry_of(e, sid, 0) is Some,
            |sid: Seq<char>| e[entry_of(e, sid, 0)->0].1@,
        )
    }
}

impl ProjectCache {
    /// Remembers nothing yet.
    pub fn new() -> (r: ProjectCache)
        ensures
            r@ == Map::<Seq<char>, Seq<char>>::empty(),
    {
        let r: ProjectCache = ProjectCache { entries: Vec::new() };
        assert(r@ =~= Map::<Seq<char>, Seq<char>>::empty());
        r
    }

    /// The project that is remembered for the session.
    pub fn recall(&self, sid: &str) -> (r: Option<&str>)
        ensures
            match r {
                Some(p) => self@.contains_key(sid@) && self@[sid@] == p@,
                None => !self@.contains_key(sid@),
            },
    {
        let n: usize = self.entries.len();
        let mut i: usize = 0;
        while i < n
            invariant
                n == self.entries@.len(),
                i <= n,
                forall|m: int| 0 <= m < i ==> (#[trigger] self.entries@[m]).0@ != sid@,
            decreases n - i,
        {
            if text::same(self.entries[i].0.as_str(), sid) {
                proof {
                    lemma_entry_found(self.entries@, sid@, 0, i as int);
                }
                return Some(self.entries[i].1.as_str());
            }
            i += 1;
        }
        proof {
            lemma_entry_absent(self.entries@, sid@, 0);
        }
        None
    }

    /// Remembers the project of a session that none is remembered for.
    fn remember(&mut self, sid: &str, project: &str)
        requires
            !old(self)@.contains_key(sid@),
        ensures
            final(self)@ == old(self)@.insert(sid@, project@),
    {
        let ghost e = self.entries@;
        let ghost before = self@;
        self.entries.push((sid.to_owned(), project.to_owned()));
        proof {
            let x = self.entries@.last();
            assert(self.entries@ == e.push(x));
            assert forall|s: Seq<char>| #[trigger]
                self@.contains_key(s) == before.insert(sid@, project@).contains_key(s) && (
            self@.contains_key(s) ==> self@[s] == before.insert(sid@, project@)[s]) by {
                lemma_entry_pushed(e, x, s, 0);
            }
            assert(self@ =~= before.insert(sid@, project@));
        }
    }

    /// Forgets every project.
    pub fn clear(&mut self)
        ensures
            final(self)@ == Map::<Seq<char>, Seq<char>>::empty(),
    {
        self.entries = Vec::new();
        assert(self@ =~= Map::<Seq<char>, Seq<char>>::empty());
    }
}

/// Forgets the projects of all sessions.
pub fn clear_project_cache(cache: &mut ProjectCache)
    ensures
        final(cache)@ == Map::<Seq<char>, Seq<char>>::empty(),
{
    cache.clear();
}

/// The text that a project is looked for in: the system prompt, or its compact JSON text where it is
/// no text itself.
pub open spec fn searched(body: JsonView) -> Option<Seq<char>> {
    match json::field(body, "system"@) {
        Some(JsonView::Str(s)) => Some(s),
        Some(x) => Some(json::text_form(x)),
        None => None,
    }
}

/// The project by the groups of the search for a working directory.
pub open spec fn project_in(found: Option<Seq<Option<Seq<char>>>>) -> Seq<char> {
    match found {
        Some(g) => match patterns::group_of(g, 1) {
            Some(t) => text::trim_of(t),
            None => UNKNOWN@,
        },
        None => UNKNOWN@,
    }
}

/// The project by the groups of the search for a working directory: the directory without white
/// space around it, or `unknown`.
pub fn project_found(found: &Option<Vec<Option<String>>>) -> (r: String)
    ensures
        match found {
            Some(g) => r@ == project_in(Some(patterns::groups_of(g@))),
            None => r@ == project_in(None),
        },
{
    match found {
        Some(g) => match patterns::group(g, 1) {
            Some(t) => text::trim(t),
            None => UNKNOWN.to_owned(),
        },
        None => UNKNOWN.to_owned(),
    }
}

/// The project that the request names.
pub open spec fn mined(body: JsonView) -> Seq<char> {
    match searched(body) {
        Some(hay) => match patterns::directory_in(hay) {
            Some(d) => text::trim_of(d),
            None => UNKNOWN@,
        },
        None => UNKNOWN@,
    }
}

/// The project of a request of the session `sid` that names the project `named`.
pub open spec fn settled(
    known: Map<Seq<char>, Seq<char>>,
    sid: Seq<char>,
    named: Seq<char>,
) -> Seq<char> {
    if sid.len() > 0 && known.contains_key(sid) {
        known[sid]
    } else {
        named
    }
}

/// What is remembered after a request of the session `sid` that names the project `named`.
pub open spec fn learned(
    known: Map<Seq<char>, Seq<char>>,
    sid: Seq<char>,
    named: Seq<char>,
) -> Map<Seq<char>, Seq<char>> {
    if sid.len() > 0 && !known.contains_key(sid) && named != UNKNOWN@ {
        known.insert(sid, named)
    } else {
        known
    }
}

/// Settles the project of a request of the session `sid` that names the project `named`: the one
/// that is remembered for the session, if any. Otherwise it is `named`, which is remembered unless
/// it is `unknown` or the request names no session.
pub fn settle_project(cache: &mut ProjectCache, sid: &str, named: &str) -> (r: String)
    ensures
        r@ == settled(old(cache)@, sid@, named@),
        final(cache)@ == learned(old(cache)@, sid@, named@),
{
    if sid.is_empty() {
        return named.to_owned();
    }
    match cache.recall(sid) {
        Some(p) => p.to_owned(),
        None => {
            if !text::same(named, UNKNOWN) {
                cache.remember(sid, named);
            }
            named.to_owned()
        },
    }
}

/// The project of a request: the one that is remembered for its session, or the working directory
/// that its system prompt names.
pub fn project_from_body(cache: &mut ProjectCache, body: &Json, sid: &str) -> (r: String)
    ensures
        r@ == settled(old(cache)@, sid@, mined(body@)),
        final(cache)@ == learned(old(cache)@, sid@, mined(body@)),
{
    if !sid.is_empty() {
        if let Some(p) = cache.recall(sid) {
            return p.to_owned();
        }
    }
    let named: String = match body.get("system") {
        Some(Json::Str(s)) => project_found(
            &patterns::captures(patterns::WORKING_DIR, s.as_str()),
        ),
        Some(x) => project_found(
            &patterns::captures(patterns::WORKING_DIR, json::to_text(x).as_str()),
        ),
        None => UNKNOWN.to_owned(),
    };
    settle_project(cache, sid, named.as_str())
}

/// The session that the headers name.
pub open spec fn session_of(headers: JsonView) -> Seq<char> {
    header_of(headers, text::kebab_of(SESSION_HEADER@))
}

/// Whom a request is counted for, where `known` is remembered of earlier ones.
pub open spec fn identified(
    known: Map<Seq<char>, Seq<char>>,
    headers: JsonView,
    body: JsonView,
) -> IdentityView {
    IdentityView {
        session_id: session_of(headers),
        agent_id: header_of(headers, text::kebab_of(AGENT_HEADER@)),
        parent_agent_id: header_of(headers, text::kebab_of(PARENT_HEADER@)),
        project: settled(known, session_of(headers), mined(body)),
    }
}

/// Whom a request is counted for.
pub fn identify(cache: &mut ProjectCache, headers: &Json, body: &Json) -> (r: Identity)
    ensures
        r@ == identified(old(cache)@, headers@, body@),
        final(cache)@ == learned(
            old(cache)@,
            session_of(headers@),
            mined(body@),
        ),
{
    let sid: String = session_id(headers);
    let (agent_id, parent_agent_id): (String, String) = agent_ids(headers);
    let project: String = project_from_body(cache, body, sid.as_str());
    Identity { session_id: sid, agent_id, parent_agent_id, project }
}

/// A request that names no project does not spoil its session: the next one that names a project
/// settles it.
pub proof fn law_unknown_is_not_remembered(
    known: Map<Seq<char>, Seq<char>>,
    sid: Seq<char>,
    later: Seq<char>,
)
    requires
        !known.contains_key(sid),
    ensures
        settled(known, sid, UNKNOWN@) == UNKNOWN@,
        learned(known, sid, UNKNOWN@) == known,
        settled(learned(known, sid, UNKNOWN@), sid, later) == later,
{
}

/// Once a session's project is found it sticks, whatever later requests name.
pub proof fn law_project_sticks(
    known: Map<Seq<char>, Seq<char>>,
    sid: Seq<char>,
    named: Seq<char>,
    later: Seq<char>,
)
    requires
        sid.len() > 0,
        settled(known, sid, named) != UNKNOWN@,
    ensures
        settled(learned(known, sid, named), sid, later) == settled(known, sid, named),
        learned(learned(known, sid, named), sid, later) == learned(known, sid, named),
{
}

/// What one session's request names does not touch another session.
pub proof fn law_sessions_are_apart(
    known: Map<Seq<char>, Seq<char>>,
    sid: Seq<char>,
    named: Seq<char>,
    other: Seq<char>,
    later: Seq<char>,
)
    requires
        other != sid,
    ensures
        settled(learned(known, sid, named), other, later) == settled(known, other, later),
{
}

/// A project that is remembered is never `unknown`, if none was before.
pub proof fn law_remembered_projects_are_known(
    known: Map<Seq<char>, Seq<char>>,
    sid: Seq<char>,
    named: Seq<char>,
)
    requires
        forall|s: Seq<char>| #[trigger] known.contains_key(s) ==> known[s] != UNKNOWN@,
    ensures
        forall|s: Seq<char>| #[trigger]
            learned(known, sid, named).contains_key(s) ==> learned(known, sid, named)[s]
                != UNKNOWN@,
{
}

/// After everything is forgotten a request is settled by what it names.
pub proof fn law_forgetting_starts_afresh(sid: Seq<char>, named: Seq<char>)
    ensures
        settled(Map::<Seq<char>, Seq<char>>::empty(), sid, named) == named,
{
}

} // verus!
