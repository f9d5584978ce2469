//! Projects and chats: the desktop app's own workspace, kept apart from the
//! provider configuration. Reading and writing the workspace file is the
//! caller's part.

use vstd::prelude::*;
use crate::config::home_or_empty;
use crate::id::{generate_id, id_spec, unix_millis};
use crate::text::{
    components_of, file_name_of, first_index, join_path, lemma_first_index, lemma_first_index_unique, path_components,
    path_file_name, path_join, same_texts, str_eq, views,
};
use crate::app_state::{derive_title, title_spec};
use crate::types::{message_views, Message, MessageView, Role};

verus! {

/// Milliseconds since the Unix epoch by the system clock, as an `i64`
/// (0 when the clock is set before the epoch). Nothing is stated of the
/// value: it is the time.
pub fn now_millis() -> i64 {
    let m = unix_millis();
    #[verifier::truncate]
    (m as i64)
}

/// The workspace file under the home directory `home`.
pub open spec fn workspace_path_in(home: Seq<char>) -> Seq<char> {
    path_join(path_join(path_join(home, ".local-code"@), "desktop"@), "workspace.json"@)
}

/// The directory of the workspace file.
pub fn workspace_dir() -> (r: String)
    ensures
        exists|home: Seq<char>| r@ == path_join(path_join(home, ".local-code"@), "desktop"@),
{
    let home = home_or_empty();
    let base = join_path(home.as_str(), ".local-code");
    let r = join_path(base.as_str(), "desktop");
    assert(r@ == path_join(path_join(home@, ".local-code"@), "desktop"@));
    r
}

/// The workspace file.
pub fn workspace_path() -> (r: String)
    ensures
        exists|home: Seq<char>| r@ == workspace_path_in(home),
{
    let dir = workspace_dir();
    let r = join_path(dir.as_str(), "workspace.json");
    let ghost h = choose|home: Seq<char>| dir@ == path_join(path_join(home, ".local-code"@), "desktop"@);
    assert(r@ == workspace_path_in(h));
    r
}

/// A project: a folder the user added.
#[derive(Debug, Clone)]
pub struct ProjectRecord {
    pub id: String,
    pub name: String,
    pub path: String,
}

pub struct ProjectView {
    pub id: Seq<char>,
    pub name: Seq<char>,
    pub path: Seq<char>,
}

impl View for ProjectRecord {
    type V = ProjectView;

    open spec fn view(&self) -> ProjectView {
        ProjectView { id: self.id@, name: self.name@, path: self.path@ }
    }
}

/// A chat within a project, with its conversation.
#[derive(Debug, Clone)]
pub struct ChatRecord {
    pub id: String,
    pub project_id: String,
    pub title: Option<String>,
    pub provider_id: String,
    pub model: String,
    pub messages: Vec<Message>,
    pub created_at: i64,
    pub updated_at: i64,
}

pub struct ChatView {
    pub id: Seq<char>,
    pub project_id: Seq<char>,
    pub title: Option<Seq<char>>,
    pub provider_id: Seq<char>,
    pub model: Seq<char>,
    pub messages: Seq<MessageView>,
    pub created_at: i64,
    pub updated_at: i64,
}

impl View for ChatRecord {
    type V = ChatView;

    open spec fn view(&self) -> ChatView {
        ChatView {
            id: self.id@,
            project_id: self.project_id@,
            title: match self.title {
                Some(t) => Some(t@),
                None => None,
            },
            provider_id: self.provider_id@,
            model: self.model@,
            messages: message_views(self.messages@),
            created_at: self.created_at,
            updated_at: self.updated_at,
        }
    }
}

impl ChatRecord {
    /// The chat's title, or "New chat" before it has one.
    pub fn display_title(&self) -> (r: String)
        ensures
            r@ == match self@.title {
                Some(t) => t,
                None => "New chat"@,
            },
    {
        match &self.title {
            Some(t) => t.clone(),
            None => "New chat".to_owned(),
        }
    }
}

/// The projects, the chats, and which of them are open.
#[derive(Debug, Clone)]
pub struct Workspace {
    pub projects: Vec<ProjectRecord>,
    pub chats: Vec<ChatRecord>,
    pub active_project: Option<String>,
    pub active_chat: Option<String>,
}

pub struct WorkspaceView {
    pub projects: Seq<ProjectView>,
    pub chats: Seq<ChatView>,
    pub active_project: Option<Seq<char>>,
    pub active_chat: Option<Seq<char>>,
}

pub open spec fn project_views(s: Seq<ProjectRecord>) -> Seq<ProjectView> {
    s.map_values(|p: ProjectRecord| p@)
}

pub open spec fn chat_views(s: Seq<ChatRecord>) -> Seq<ChatView> {
    s.map_values(|c: ChatRecord| c@)
}

pub open spec fn opt_str(o: Option<String>) -> Option<Seq<char>> {
    match o {
        Some(s) => Some(s@),
        None => None,
    }
}

impl View for Workspace {
    type V = WorkspaceView;

    open spec fn view(&self) -> WorkspaceView {
        WorkspaceView {
            projects: project_views(self.projects@),
            chats: chat_views(self.chats@),
            active_project: opt_str(self.active_project),
            active_chat: opt_str(self.active_chat),
        }
    }
}

impl Default for Workspace {
    fn default() -> (w: Self)
        ensures
            w@.projects.len() == 0,
            w@.chats.len() == 0,
            w@.active_project is None,
            w@.active_chat is None,
    {
        Workspace { projects: Vec::new(), chats: Vec::new(), active_project: None, active_chat: None }
    }
}

/// The paths `a` and `b` are the same path: they have the same components
/// (as `Path`'s `==` compares them).
pub open spec fn same_path(a: Seq<char>, b: Seq<char>) -> bool {
    path_components(a) == path_components(b)
}

/// The index of the first project at the same path as `path`, or -1.
pub open spec fn project_with_path(ps: Seq<ProjectView>, path: Seq<char>) -> int {
    first_index(ps, |p: ProjectView| same_path(p.path, path))
}

/// The index of the first project with the id `id`, or -1.
pub open spec fn project_with_id(ps: Seq<ProjectView>, id: Seq<char>) -> int {
    first_index(ps, |p: ProjectView| p.id == id)
}

/// The index of the first chat with the id `id`, or -1.
pub open spec fn chat_with_id(cs: Seq<ChatView>, id: Seq<char>) -> int {
    first_index(cs, |c: ChatView| c.id == id)
}

/// Chat `i` is listed before chat `j`: it was updated later, or at the same
/// time and comes first.
pub open spec fn chat_before(chats: Seq<ChatView>, i: int, j: int) -> bool {
    ||| chats[i].updated_at > chats[j].updated_at
    ||| (chats[i].updated_at == chats[j].updated_at && i < j)
}

/// `idx` lists the chats of the project `project_id`, each once, most
/// recently updated first (ties in their order in the workspace).
pub open spec fn project_order(chats: Seq<ChatView>, project_id: Seq<char>, idx: Seq<usize>) -> bool {
    &&& forall|k: int| 0 <= k < idx.len() ==> (#[trigger] idx[k]) < chats.len() && chats[idx[k] as int].project_id
        == project_id
    &&& forall|i: int| 0 <= i < chats.len() && (#[trigger] chats[i]).project_id == project_id ==> exists|k: int|
        0 <= k < idx.len() && #[trigger] idx[k] == i
    &&& forall|a: int, b: int| 0 <= a < b < idx.len() ==> chat_before(chats, #[trigger] idx[a] as int, #[trigger] idx[b] as int)
}

/// A project added for a new path is the one found for that path from then
/// on: adding the same path again gives back its id and changes nothing
/// (see `Workspace::add_project`).
pub proof fn lemma_add_project_found_again(ps: Seq<ProjectView>, p: ProjectView)
    requires
        project_with_path(ps, p.path) < 0,
    ensures
        project_with_path(ps.push(p), p.path) == ps.len(),
        ps.push(p)[ps.len() as int].id == p.id,
{
    let f = |q: ProjectView| same_path(q.path, p.path);
    lemma_first_index(ps, f);
    assert forall|m: int| 0 <= m < ps.push(p).len() && m < ps.len() implies !f(#[trigger] ps.push(p)[m]) by {
        assert(ps.push(p)[m] == ps[m]);
    }
    lemma_first_index_unique(ps.push(p), f, ps.len() as int);
}

impl Workspace {
    /// The id of the project at `path`: the existing one's (the first at
    /// the same path), or a new project's (named after the path's last
    /// component, with an id made from `count`), which becomes the active
    /// project.
    pub fn add_project(&mut self, path: String, count: u64) -> (id: String)
        ensures
            ({
                let k = project_with_path(old(self)@.projects, path@);
                if k >= 0 {
                    id@ == old(self)@.projects[k].id && final(self)@ == old(self)@
                } else {
                    &&& exists|millis: u128| id@ == id_spec("project"@, millis as nat, count as nat)
                    &&& final(self)@.projects == old(self)@.projects.push(
                        ProjectView { id: id@, name: path_file_name(path@), path: path@ },
                    )
                    &&& final(self)@.chats == old(self)@.chats
                    &&& final(self)@.active_project == Some(id@)
                    &&& final(self)@.active_chat == old(self)@.active_chat
                }
            }),
    {
        let ghost f = |p: ProjectView| same_path(p.path, path@);
        let wanted = components_of(path.as_str());
        let mut k: usize = 0;
        while k < self.projects.len()
            invariant
                k <= self@.projects.len(),
                f == (|p: ProjectView| same_path(p.path, path@)),
                views(wanted@) == path_components(path@),
                forall|m: int| 0 <= m < k ==> !f(#[trigger] self@.projects[m]),
            decreases self@.projects.len() - k,
        {
            let here = components_of(self.projects[k].path.as_str());
            if same_texts(&here, &wanted) {
                proof {
                    lemma_first_index_unique(self@.projects, f, k as int);
                }
                return self.projects[k].id.clone();
            }
            k += 1;
        }
        proof {
            lemma_first_index_unique(self@.projects, f, -1);
        }
        let id = generate_id("project", count);
        let name = file_name_of(path.as_str());
        let ghost old_projects = self@.projects;
        self.projects.push(ProjectRecord { id: id.clone(), name, path });
        self.active_project = Some(id.clone());
        proof {
            assert(project_views(self.projects@) =~= old_projects.push(self.projects@[self.projects@.len() - 1]@));
        }
        id
    }

    /// The id of a new chat in `project_id` with the given provider and
    /// model (its id made from `count`, created and updated now), which
    /// becomes the active chat.
    pub fn add_chat(&mut self, project_id: &str, provider_id: String, model: String, count: u64) -> (id: String)
        ensures
            exists|millis: u128| id@ == id_spec("chat"@, millis as nat, count as nat),
            exists|now: i64|
                final(self)@.chats == old(self)@.chats.push(
                    ChatView {
                        id: id@,
                        project_id: project_id@,
                        title: None,
                        provider_id: provider_id@,
                        model: model@,
                        messages: Seq::empty(),
                        created_at: now,
                        updated_at: now,
                    },
                ),
            final(self)@.projects == old(self)@.projects,
            final(self)@.active_project == old(self)@.active_project,
            final(self)@.active_chat == Some(id@),
    {
        let id = generate_id("chat", count);
        let now = now_millis();
        let ghost old_chats = self@.chats;
        let chat = ChatRecord {
            id: id.clone(),
            project_id: project_id.to_owned(),
            title: None,
            provider_id,
            model,
            messages: Vec::new(),
            created_at: now,
            updated_at: now,
        };
        assert(chat@.messages =~= Seq::<MessageView>::empty());
        self.chats.push(chat);
        self.active_chat = Some(id.clone());
        proof {
            assert(chat_views(self.chats@) =~= old_chats.push(self.chats@[self.chats@.len() - 1]@));
        }
        id
    }

    /// The project with the id `id`, if there is one (the first).
    pub fn project(&self, id: &str) -> (r: Option<&ProjectRecord>)
        ensures
            ({
                let k = project_with_id(self@.projects, id@);
                match r {
                    Some(p) => k >= 0 && p@ == self@.projects[k],
                    None => k < 0,
                }
            }),
    {
        let ghost f = |p: ProjectView| p.id == id@;
        let mut k: usize = 0;
        while k < self.projects.len()
            invariant
                k <= self@.projects.len(),
                f == (|p: ProjectView| p.id == id@),
                forall|m: int| 0 <= m < k ==> !f(#[trigger] self@.projects[m]),
            decreases self@.projects.len() - k,
        {
            if str_eq(self.projects[k].id.as_str(), id) {
                proof {
                    lemma_first_index_unique(self@.projects, f, k as int);
                }
                return Some(&self.projects[k]);
            }
            k += 1;
        }
        proof {
            lemma_first_index_unique(self@.projects, f, -1);
        }
        None
    }

    /// The index of the chat with the id `id`, if there is one (the first).
    pub fn chat_index(&self, id: &str) -> (r: Option<usize>)
        ensures
            ({
                let k = chat_with_id(self@.chats, id@);
                match r {
                    Some(i) => k >= 0 && i == k,
                    None => k < 0,
                }
            }),
    {
        let ghost f = |c: ChatView| c.id == id@;
        let mut k: usize = 0;
        while k < self.chats.len()
            invariant
                k <= self@.chats.len(),
                f == (|c: ChatView| c.id == id@),
                forall|m: int| 0 <= m < k ==> !f(#[trigger] self@.chats[m]),
            decreases self@.chats.len() - k,
        {
            if str_eq(self.chats[k].id.as_str(), id) {
                proof {
                    lemma_first_index_unique(self@.chats, f, k as int);
                }
                return Some(k);
            }
            k += 1;
        }
        proof {
            lemma_first_index_unique(self@.chats, f, -1);
        }
        None
    }

    /// The chat with the id `id`, if there is one (the first), to change in
    /// place: whatever is done to it is done to that chat of the workspace,
    /// and nothing else changes.
    pub fn chat_mut(&mut self, id: &str) -> (r: Option<&mut ChatRecord>)
        ensures
            ({
                let k = chat_with_id(old(self)@.chats, id@);
                match r {
                    Some(c) => {
                        &&& k >= 0
                        &&& *c == old(self).chats@[k]
                        &&& final(self).chats@ == old(self).chats@.update(k, *final(c))
                        &&& final(self).projects@ == old(self).projects@
                        &&& final(self).active_project == old(self).active_project
                        &&& final(self).active_chat == old(self).active_chat
                    },
                    None => k < 0 && *final(self) == *old(self),
                }
            }),
    {
        proof {
            lemma_first_index(self@.chats, |c: ChatView| c.id == id@);
        }
        match self.chat_index(id) {
            Some(i) => Some(&mut self.chats[i]),
            None => None,
        }
    }

    /// The chat with the id `id`, if there is one (the first).
    pub fn chat(&self, id: &str) -> (r: Option<&ChatRecord>)
        ensures
            ({
                let k = chat_with_id(self@.chats, id@);
                match r {
                    Some(c) => k >= 0 && c@ == self@.chats[k],
                    None => k < 0,
                }
            }),
    {
        proof {
            lemma_first_index(self@.chats, |c: ChatView| c.id == id@);
        }
        match self.chat_index(id) {
            Some(i) => Some(&self.chats[i]),
            None => None,
        }
    }

    /// The indices of the project's chats, most recently updated first.
    pub fn project_chat_order(&self, project_id: &str) -> (idx: Vec<usize>)
        ensures
            project_order(self@.chats, project_id@, idx@),
    {
        let ghost cs = self@.chats;
        let mut idx: Vec<usize> = Vec::new();
        let mut i: usize = 0;
        while i < self.chats.len()
            invariant
                cs == self@.chats,
                i <= cs.len(),
                forall|k: int| 0 <= k < idx@.len() ==> (#[trigger] idx@[k]) < i && cs[idx@[k] as int].project_id
                    == project_id@,
                forall|j: int| 0 <= j < i && (#[trigger] cs[j]).project_id == project_id@ ==> exists|k: int|
                    0 <= k < idx@.len() && #[trigger] idx@[k] == j,
                forall|a: int, b: int| 0 <= a < b < idx@.len() ==> chat_before(cs, #[trigger] idx@[a] as int, #[trigger] idx@[b] as int),
            decreases cs.len() - i,
        {
            if str_eq(self.chats[i].project_id.as_str(), project_id) {
                let u = self.chats[i].updated_at;
                let mut k: usize = 0;
                while k < idx.len() && self.chats[idx[k]].updated_at >= u
                    invariant
                        cs == self@.chats,
                        i < cs.len(),
                        u == cs[i as int].updated_at,
                        k <= idx@.len(),
                        forall|m: int| 0 <= m < idx@.len() ==> (#[trigger] idx@[m]) < i,
                        forall|m: int| 0 <= m < k ==> cs[(#[trigger] idx@[m]) as int].updated_at >= u,
                    decreases idx@.len() - k,
                {
                    k += 1;
                }
                let ghost old_idx = idx@;
                idx.insert(k, i);
                proof {
                    assert(idx@ == old_idx.insert(k as int, i));
                    assert forall|j: int| 0 <= j < i + 1 && (#[trigger] cs[j]).project_id == project_id@ implies exists|m: int|
                        0 <= m < idx@.len() && #[trigger] idx@[m] == j by {
                        if j == i {
                            assert(idx@[k as int] == i);
                        } else {
                            let m0 = choose|m: int| 0 <= m < old_idx.len() && #[trigger] old_idx[m] == j;
                            if m0 < k {
                                assert(idx@[m0] == j);
                            } else {
                                assert(idx@[m0 + 1] == j);
                            }
                        }
                    }
                    assert forall|a: int, b: int| 0 <= a < b < idx@.len() implies chat_before(
                        cs,
                        #[trigger] idx@[a] as int,
                        #[trigger] idx@[b] as int,
                    ) by {
                        if b < k {
                            assert(idx@[a] == old_idx[a] && idx@[b] == old_idx[b]);
                        } else if b == k {
                            assert(idx@[a] == old_idx[a]);
                        } else if a == k {
                            assert(idx@[b] == old_idx[b - 1]);
                            assert(cs[old_idx[k as int] as int].updated_at < u);
                            if b - 1 > k {
                                assert(chat_before(cs, old_idx[k as int] as int, old_idx[b - 1] as int));
                            }
                        } else if a < k {
                            assert(idx@[a] == old_idx[a] && idx@[b] == old_idx[b - 1]);
                        } else {
                            assert(idx@[a] == old_idx[a - 1] && idx@[b] == old_idx[b - 1]);
                        }
                    }
                }
            }
            i += 1;
        }
        idx
    }

    /// The project's chats, most recently updated first.
    pub fn chats_for_project(&self, project_id: &str) -> (r: Vec<&ChatRecord>)
        ensures
            exists|idx: Seq<usize>|
                {
                    &&& #[trigger] project_order(self@.chats, project_id@, idx)
                    &&& r@.len() == idx.len()
                    &&& forall|k: int| 0 <= k < idx.len() ==> (#[trigger] r@[k])@ == self@.chats[idx[k] as int]
                },
    {
        let idx = self.project_chat_order(project_id);
        let mut r: Vec<&ChatRecord> = Vec::new();
        let mut k: usize = 0;
        while k < idx.len()
            invariant
                project_order(self@.chats, project_id@, idx@),
                k <= idx@.len(),
                r@.len() == k,
                forall|m: int| 0 <= m < k ==> (#[trigger] r@[m])@ == self@.chats[idx@[m] as int],
            decreases idx@.len() - k,
        {
            assert(idx@[k as int] < self@.chats.len());
            r.push(&self.chats[idx[k]]);
            k += 1;
        }
        r
    }

    /// The project's most recently updated chat (the first of those updated
    /// last), if it has any.
    pub fn most_recent_chat_for_project(&self, project_id: &str) -> (r: Option<&ChatRecord>)
        ensures
            match r {
                Some(c) => exists|i: int|
                    {
                        &&& 0 <= i < self@.chats.len()
                        &&& (#[trigger] self@.chats[i]).project_id == project_id@
                        &&& c@ == self@.chats[i]
                        &&& forall|j: int|
                            0 <= j < self@.chats.len() && (#[trigger] self@.chats[j]).project_id == project_id@ && j
                                != i ==> chat_before(self@.chats, i, j)
                    },
                None => forall|j: int| 0 <= j < self@.chats.len() ==> (#[trigger] self@.chats[j]).project_id != project_id@,
            },
    {
        let idx = self.project_chat_order(project_id);
        if idx.len() == 0 {
            assert forall|j: int| 0 <= j < self@.chats.len() implies (#[trigger] self@.chats[j]).project_id
                != project_id@ by {
                if self@.chats[j].project_id == project_id@ {
                    let k = choose|k: int| 0 <= k < idx@.len() && #[trigger] idx@[k] == j;
                }
            }
            return None;
        }
        let i = idx[0];
        proof {
            assert(self@.chats[i as int].project_id == project_id@);
            assert forall|j: int|
                0 <= j < self@.chats.len() && (#[trigger] self@.chats[j]).project_id == project_id@ && j != i implies chat_before(
                self@.chats,
                i as int,
                j,
            ) by {
                let k = choose|k: int| 0 <= k < idx@.len() && #[trigger] idx@[k] == j;
                assert(k > 0);
                assert(chat_before(self@.chats, idx@[0] as int, idx@[k] as int));
            }
        }
        Some(&self.chats[i])
    }
}

/// `ws` with the chat `chat_id` (if there is one) holding the conversation
/// `messages` that a turn handed back, marked updated at `now`; the other
/// chats, the projects and what is open stay as they are.
pub open spec fn turn_finished(ws: WorkspaceView, chat_id: Seq<char>, messages: Seq<MessageView>, now: i64) -> WorkspaceView {
    let k = chat_with_id(ws.chats, chat_id);
    if k >= 0 {
        WorkspaceView { chats: ws.chats.update(k, ChatView { messages, updated_at: now, ..ws.chats[k] }), ..ws }
    } else {
        ws
    }
}

/// `ws` with the chat `chat_id` (if there is one) talking to
/// `provider_id` with `model`.
pub open spec fn with_chat_model(ws: WorkspaceView, chat_id: Seq<char>, provider_id: Seq<char>, model: Seq<char>) -> WorkspaceView {
    let k = chat_with_id(ws.chats, chat_id);
    if k >= 0 {
        WorkspaceView {
            chats: ws.chats.update(k, ChatView { provider_id, model, ..ws.chats[k] }),
            ..ws
        }
    } else {
        ws
    }
}

/// `ws` with the user's message `text` added to the chat `chat_id` (if
/// there is one), which takes its title from its messages if it has none
/// yet.
pub open spec fn with_user_message(ws: WorkspaceView, chat_id: Seq<char>, text: Seq<char>) -> WorkspaceView {
    let k = chat_with_id(ws.chats, chat_id);
    if k >= 0 {
        let c = ws.chats[k];
        let msgs = c.messages.push(
            MessageView { role: Role::User, content: text, tool_calls: None, tool_call_id: None, tool_name: None },
        );
        WorkspaceView {
            chats: ws.chats.update(
                k,
                ChatView {
                    messages: msgs,
                    title: match c.title {
                        Some(t) => Some(t),
                        None => Some(title_spec(msgs)),
                    },
                    ..c
                },
            ),
            ..ws
        }
    } else {
        ws
    }
}

impl Workspace {
    /// Puts `c` in place of the chat at `i`.
    fn replace_chat(&mut self, i: usize, c: ChatRecord)
        requires
            i < old(self)@.chats.len(),
        ensures
            final(self)@.chats == old(self)@.chats.update(i as int, c@),
            final(self)@.projects == old(self)@.projects,
            final(self)@.active_project == old(self)@.active_project,
            final(self)@.active_chat == old(self)@.active_chat,
    {
        let ghost before = self@.chats;
        let _ = self.chats.remove(i);
        self.chats.insert(i, c);
        assert(chat_views(self.chats@) =~= before.update(i as int, c@));
    }

    /// The chat `chat_id` (if there is one) now talks to `provider_id` with
    /// `model`.
    pub fn set_chat_model(&mut self, chat_id: &str, provider_id: String, model: String)
        ensures
            final(self)@ == with_chat_model(old(self)@, chat_id@, provider_id@, model@),
    {
        proof {
            lemma_first_index(self@.chats, |c: ChatView| c.id == chat_id@);
        }
        match self.chat_index(chat_id) {
            Some(i) => {
                let mut c = self.chats[i].clone_record();
                c.provider_id = provider_id;
                c.model = model;
                self.replace_chat(i, c);
            },
            None => {},
        }
    }

    /// Adds the user's message `text` to the chat `chat_id` (if there is
    /// one), which takes its title from its messages if it has none yet.
    pub fn add_user_message(&mut self, chat_id: &str, text: String)
        ensures
            final(self)@ == with_user_message(old(self)@, chat_id@, text@),
    {
        proof {
            lemma_first_index(self@.chats, |c: ChatView| c.id == chat_id@);
        }
        match self.chat_index(chat_id) {
            Some(i) => {
                let mut c = self.chats[i].clone_record();
                let ghost before = message_views(c.messages@);
                c.messages.push(Message::user(text));
                assert(message_views(c.messages@) =~= before.push(c.messages@.last()@));
                if c.title.is_none() {
                    c.title = Some(derive_title(&c.messages));
                }
                self.replace_chat(i, c);
            },
            None => {},
        }
    }

    /// The chat `chat_id` (if there is one) gets the conversation a turn
    /// handed back, and is marked updated at `now`.
    pub fn finish_turn(&mut self, chat_id: &str, messages: Vec<Message>, now: i64)
        ensures
            final(self)@ == turn_finished(old(self)@, chat_id@, message_views(messages@), now),
    {
        proof {
            lemma_first_index(self@.chats, |c: ChatView| c.id == chat_id@);
        }
        match self.chat_index(chat_id) {
            Some(i) => {
                let mut c = self.chats[i].clone_record();
                c.messages = messages;
                c.updated_at = now;
                self.replace_chat(i, c);
            },
            None => {},
        }
    }

    /// The chat `chat_id` (if there is one) starts over with the system
    /// prompt `prompt` as its only message.
    pub fn seed_chat(&mut self, chat_id: &str, prompt: String)
        ensures
            ({
                let k = chat_with_id(old(self)@.chats, chat_id@);
                &&& k >= 0 ==> final(self)@.chats == old(self)@.chats.update(
                    k,
                    ChatView {
                        messages: seq![
                            MessageView {
                                role: Role::System,
                                content: prompt@,
                                tool_calls: None,
                                tool_call_id: None,
                                tool_name: None,
                            },
                        ],
                        ..old(self)@.chats[k]
                    },
                )
                &&& k < 0 ==> final(self)@.chats == old(self)@.chats
                &&& final(self)@.projects == old(self)@.projects
                &&& final(self)@.active_project == old(self)@.active_project
                &&& final(self)@.active_chat == old(self)@.active_chat
            }),
    {
        proof {
            lemma_first_index(self@.chats, |c: ChatView| c.id == chat_id@);
        }
        match self.chat_index(chat_id) {
            Some(i) => {
                let mut c = self.chats[i].clone_record();
                c.messages = vec![Message::system(prompt)];
                assert(message_views(c.messages@) =~= seq![c.messages@[0]@]);
                self.replace_chat(i, c);
            },
            None => {},
        }
    }
}

impl ChatRecord {
    /// A copy of the chat.
    pub fn clone_record(&self) -> (c: ChatRecord)
        ensures
            c@ == self@,
    {
        ChatRecord {
            id: self.id.clone(),
            project_id: self.project_id.clone(),
            title: match &self.title {
                Some(t) => Some(t.clone()),
                None => None,
            },
            provider_id: self.provider_id.clone(),
            model: self.model.clone(),
            messages: crate::types::clone_messages(&self.messages),
            created_at: self.created_at,
            updated_at: self.updated_at,
        }
    }
}

} // verus!
