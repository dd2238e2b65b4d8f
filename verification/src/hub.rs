//! The sessions of a graphical client: opening, closing and switching between
//! them.
use crate::session::Session;
use crate::text::{cat, dec, decimal, same, split_words, trim, trim_str, views, words};
use vstd::prelude::*;
use vstd::string::*;

verus! {

/// Where the first of `args` is that names the working directory.
pub open spec fn workdir_flag(args: Seq<String>, i: int) -> Option<int>
    decreases args.len() - i,
{
    if i < 0 || i >= args.len() {
        None
    } else if args[i]@ == "-w"@ || args[i]@ == "--workdir"@ {
        Some(i)
    } else {
        workdir_flag(args, i + 1)
    }
}

/// The working directory that `args` name.
pub open spec fn workdir_in(args: Seq<String>) -> Option<String> {
    match workdir_flag(args, 0) {
        Some(i) => if i + 1 < args.len() {
            Some(args[i + 1])
        } else {
            None
        },
        None => None,
    }
}

/// The working directory that `args` name.
pub fn workdir_arg(args: &[String]) -> (res: Option<String>)
    ensures
        res == workdir_in(args@),
{
    let total: usize = args.len();
    let mut i: usize = 0;
    while i < total
        invariant
            i <= total == args@.len(),
            workdir_flag(args@, 0) == workdir_flag(args@, i as int),
        decreases total - i,
    {
        if same(&args[i], "-w") || same(&args[i], "--workdir") {
            return if i + 1 < total {
                Some(args[i + 1].clone())
            } else {
                None
            };
        }
        i += 1;
    }
    None
}

/// The title of a session: the last part of the path of its working directory,
/// where `args` name one that has such a part, else its number. `dir_name` is
/// that part.
pub fn session_title(args: &[String], id: usize, dir_name: Option<String>) -> (res: String)
    ensures
        match dir_name {
            Some(name) => if workdir_in(args@) is Some {
                res == name
            } else {
                res@ == "session "@ + dec(id as nat)
            },
            None => res@ == "session "@ + dec(id as nat),
        },
{
    if workdir_arg(args).is_some() {
        if let Some(name) = dir_name {
            return name;
        }
    }
    cat("session ", &decimal(id as u64))
}

/// What was typed for a new session.
#[derive(Debug)]
pub struct NewSessionDraft {
    pub workdir: String,
    pub extra_args: String,
    pub error: Option<String>,
}

impl NewSessionDraft {
    /// A draft with nothing in it.
    pub fn new() -> (res: NewSessionDraft)
        ensures
            res.workdir@.len() == 0 && res.extra_args@.len() == 0 && res.error is None,
    {
        NewSessionDraft { workdir: String::new(), extra_args: String::new(), error: None }
    }

    /// The arguments of the session that the draft describes.
    pub fn args(&self) -> (res: Vec<String>)
        ensures
            views(res@) == (if trim(self.workdir@).len() > 0 {
                seq!["-w"@, trim(self.workdir@)]
            } else {
                seq![]
            }) + words(self.extra_args@, 0),
    {
        let mut res: Vec<String> = Vec::new();
        let workdir: String = trim_str(&self.workdir);
        if !workdir.as_str().is_empty() {
            res.push("-w".to_owned());
            res.push(workdir);
        }
        let ghost head = views(res@);
        proof {
            assert(head =~= if trim(self.workdir@).len() > 0 {
                seq!["-w"@, trim(self.workdir@)]
            } else {
                seq![]
            });
        }
        let ghost first = res@;
        let mut extra: Vec<String> = split_words(&self.extra_args);
        let ghost more = extra@;
        res.append(&mut extra);
        proof {
            assert(views(res@) =~= head + views(more));
        }
        res
    }

    /// The draft with the reason why its session could not be started.
    pub fn failed(self, error: String) -> (res: NewSessionDraft)
        ensures
            res == (NewSessionDraft { error: Some(error), ..self }),
    {
        NewSessionDraft { error: Some(error), ..self }
    }
}

/// The sessions of a client.
pub struct SessionHub {
    pub sessions: Vec<Session>,
    /// The session on view.
    pub active: usize,
    pub next_session_id: usize,
    /// The new session that is being described, if one is.
    pub draft: Option<NewSessionDraft>,
}

impl SessionHub {
    /// One of the sessions is on view, where there are any.
    pub open spec fn wf(&self) -> bool {
        self.active < self.sessions@.len() || (self.active == 0 && self.sessions@.len() == 0)
    }

    /// No number is used twice, and all that are used come before the next one.
    pub open spec fn ids_are_unique(&self) -> bool {
        &&& forall|i: int|
            0 <= i < self.sessions@.len() ==> (#[trigger] self.sessions@[i]).id < self.next_session_id
        &&& forall|i: int, j: int|
            0 <= i < j < self.sessions@.len() ==> (#[trigger] self.sessions@[i]).id != (
            #[trigger] self.sessions@[j]).id
    }

    /// Whether no session has this number, which has been taken.
    pub open spec fn is_fresh(&self, id: usize) -> bool {
        &&& id < self.next_session_id
        &&& forall|i: int| 0 <= i < self.sessions@.len() ==> (#[trigger] self.sessions@[i]).id != id
    }

    /// A client without sessions.
    pub fn new() -> (res: SessionHub)
        ensures
            res.wf(),
            res.ids_are_unique(),
            res.sessions@.len() == 0 && res.active == 0 && res.next_session_id == 1,
            res.draft is None,
    {
        SessionHub { sessions: Vec::new(), active: 0, next_session_id: 1, draft: None }
    }

    /// Takes the number of the next session.
    pub fn take_id(&mut self) -> (res: usize)
        requires
            old(self).next_session_id < usize::MAX,
        ensures
            res == old(self).next_session_id,
            *final(self) == (SessionHub {
                next_session_id: (old(self).next_session_id + 1) as usize,
                ..*old(self)
            }),
            old(self).ids_are_unique() ==> final(self).ids_are_unique() && final(self).is_fresh(res),
    {
        let id: usize = self.next_session_id;
        self.next_session_id = id + 1;
        id
    }

    /// Takes in a session that was started, and shows it.
    pub fn open_session(&mut self, session: Session)
        ensures
            final(self).wf(),
            final(self).sessions@ == old(self).sessions@.push(session),
            final(self).active == old(self).sessions@.len(),
            final(self).next_session_id == old(self).next_session_id,
            final(self).draft == old(self).draft,
            old(self).ids_are_unique() && old(self).is_fresh(session.id) ==> final(
                self).ids_are_unique(),
    {
        self.sessions.push(session);
        self.active = self.sessions.len() - 1;
    }

    /// Shows a session.
    pub fn select(&mut self, index: usize)
        requires
            index < old(self).sessions@.len(),
        ensures
            final(self).wf(),
            *final(self) == (SessionHub { active: index, ..*old(self) }),
    {
        self.active = index;
    }

    /// Closes a session, which is returned. The session on view stays on view; if
    /// it was that one, the next takes its place, or the last.
    pub fn close_session(&mut self, index: usize) -> (res: Session)
        requires
            old(self).wf(),
            index < old(self).sessions@.len(),
        ensures
            final(self).wf(),
            res == old(self).sessions@[index as int],
            final(self).sessions@ == old(self).sessions@.remove(index as int),
            final(self).next_session_id == old(self).next_session_id,
            final(self).draft == old(self).draft,
            final(self).active == active_after_close(
                old(self).active as int,
                index as int,
                old(self).sessions@.len() as int,
            ),
            old(self).active != index ==> final(self).sessions@[final(self).active as int] == old(
                self,
            ).sessions@[old(self).active as int],
            old(self).ids_are_unique() ==> final(self).ids_are_unique(),
    {
        let session: Session = self.sessions.remove(index);
        if self.active > index {
            self.active = self.active - 1;
        }
        let left: usize = self.sessions.len();
        if self.active >= left {
            self.active = if left > 0 {
                left - 1
            } else {
                0
            };
        }
        session
    }

    /// Starts describing a new session, unless one is being described.
    pub fn start_draft(&mut self)
        ensures
            *final(self) == (SessionHub { draft: final(self).draft, ..*old(self) }),
            match old(self).draft {
                Some(d) => final(self).draft == Some(d),
                None => final(self).draft matches Some(d) && d.workdir@.len() == 0
                    && d.extra_args@.len() == 0 && d.error is None,
            },
    {
        if self.draft.is_none() {
            self.draft = Some(NewSessionDraft::new());
        }
    }

    /// Whether something on the screen is moving.
    pub fn any_running(&self) -> (res: bool)
        ensures
            res == exists|i: int|
                0 <= i < self.sessions@.len() && (#[trigger] self.sessions@[i]).phase is Running,
    {
        let mut i: usize = 0;
        while i < self.sessions.len()
            invariant
                i <= self.sessions@.len(),
                forall|k: int|
                    0 <= k < i ==> !((#[trigger] self.sessions@[k]).phase is Running),
            decreases self.sessions@.len() - i,
        {
            if self.sessions[i].is_running() {
                return true;
            }
            i += 1;
        }
        false
    }
}

/// How a session's tab is marked.
#[derive(Clone, Copy, Debug, PartialEq, Eq, Structural)]
pub enum TabMark {
    Plain,
    Failed,
    NeedsApproval,
    Running,
}

/// How a session's tab is marked.
pub fn tab_mark(session: &Session) -> (res: TabMark)
    ensures
        res == if session.phase is Failed {
            TabMark::Failed
        } else if session.approvals@.len() > 0 {
            TabMark::NeedsApproval
        } else if session.phase is Running {
            TabMark::Running
        } else {
            TabMark::Plain
        },
{
    if session.is_failed() {
        TabMark::Failed
    } else if session.has_pending_approvals() {
        TabMark::NeedsApproval
    } else if session.is_running() {
        TabMark::Running
    } else {
        TabMark::Plain
    }
}

/// A session's title with its mark.
pub fn tab_text(title: &str, mark: TabMark) -> (res: String)
    ensures
        res@ == match mark {
            TabMark::NeedsApproval => "⚠ "@ + title@,
            TabMark::Running => "▶ "@ + title@,
            _ => title@,
        },
{
    match mark {
        TabMark::NeedsApproval => cat("⚠ ", title),
        TabMark::Running => cat("▶ ", title),
        _ => title.to_owned(),
    }
}

/// Which session is shown once the one at `index` of `count` is closed.
pub open spec fn active_after_close(active: int, index: int, count: int) -> int {
    if active > index {
        active - 1
    } else if active >= count - 1 {
        if count >= 2 {
            count - 2
        } else {
            0
        }
    } else {
        active
    }
}

/// Closing another session leaves the one that is shown; closing that one shows the next,
/// or the last where there is none.
pub proof fn law_which_session_is_shown_after_a_close(active: int, index: int, count: int)
    requires
        0 <= active < count,
        0 <= index < count,
    ensures
        active < index ==> active_after_close(active, index, count) == active,
        active > index ==> active_after_close(active, index, count) == active - 1,
        active == index && index + 1 < count ==> active_after_close(active, index, count) == index,
        active == index && index + 1 == count && count > 1 ==> active_after_close(
            active,
            index,
            count,
        ) == count - 2,
{
}

/// A tab is marked as failed before all else, then by an approval that waits, then by a
/// turn that runs.
pub proof fn law_how_a_tab_is_marked(session: Session, res: TabMark)
    requires
        call_ensures(tab_mark, (&session,), res),
    ensures
        res is Failed <==> session.phase is Failed,
        res is NeedsApproval <==> !(session.phase is Failed) && session.approvals@.len() > 0,
        res is Running <==> session.phase is Running && session.approvals@.len() == 0,
{
}

/// A new session starts with its directory behind `-w`, where one is given, and then with
/// the words that were typed.
pub proof fn law_what_a_new_session_starts_with(draft: NewSessionDraft, res: Vec<String>)
    requires
        call_ensures(NewSessionDraft::args, (&draft,), res),
    ensures
        trim(draft.workdir@).len() == 0 ==> views(res@) == words(draft.extra_args@, 0),
        trim(draft.workdir@).len() > 0 ==> views(res@) == seq!["-w"@, trim(draft.workdir@)] + words(
            draft.extra_args@,
            0,
        ),
{
    assert(Seq::<Seq<char>>::empty() + words(draft.extra_args@, 0) =~= words(
        draft.extra_args@,
        0,
    ));
}

/// The directory of a session is what follows the first `-w` or `--workdir`.
pub proof fn law_which_directory_a_session_names(args: &[String], i: int, res: Option<String>)
    requires
        call_ensures(workdir_arg, (args,), res),
    ensures
        0 <= i && i + 1 < args@.len() && (args@[i]@ == "-w"@ || args@[i]@ == "--workdir"@) && (
        forall|k: int|
            0 <= k < i ==> (#[trigger] args@[k])@ != "-w"@ && args@[k]@ != "--workdir"@) ==> res
            == Some(args@[i + 1]),
        (forall|k: int|
            0 <= k < args@.len() ==> (#[trigger] args@[k])@ != "-w"@ && args@[k]@ != "--workdir"@)
            ==> res is None,
{
    lemma_workdir_flag(args@, 0);
}

proof fn lemma_workdir_flag(args: Seq<String>, i: int)
    requires
        0 <= i,
    ensures
        match workdir_flag(args, i) {
            Some(k) => i <= k < args.len() && (args[k]@ == "-w"@ || args[k]@ == "--workdir"@)
                && forall|j: int|
                i <= j < k ==> (#[trigger] args[j])@ != "-w"@ && args[j]@ != "--workdir"@,
            None => forall|j: int|
                i <= j < args.len() ==> (#[trigger] args[j])@ != "-w"@ && args[j]@ != "--workdir"@,
        },
    decreases args.len() - i,
{
    if i < args.len() && args[i]@ != "-w"@ && args[i]@ != "--workdir"@ {
        lemma_workdir_flag(args, i + 1);
    }
}

} // verus!
