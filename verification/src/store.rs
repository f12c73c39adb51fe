//! The action store: discovered actions, their program and desktop
//! payload rows, the append-only execution ledger, and handler
//! enablement. Every mutation is specified as a transition function on
//! the store's mathematical view, so laws such as insert idempotence can
//! be stated and proved at the spec level.

use vstd::prelude::*;
use crate::text::{searchname_seq, searchname_chars, chars_of, string_from_chars, str_eq};

verus! {

/// The two kinds of discovered action rows.
#[derive(Clone, Copy, Debug, PartialEq, Eq, Structural)]
pub enum ActionKind {
    Program,
    Desktop,
}

/// Payload handed to `insert_action`: what was discovered, by kind.
#[derive(Clone, Debug)]
pub enum ActionType {
    Program { name: String, path: String },
    Desktop { name: String, exec_cmd: String, accepts_args: bool },
}

/// A row of the actions table.
#[derive(Clone, Debug)]
pub struct Action {
    pub id: u64,
    pub name: String,
    pub searchname: String,
    pub kind: ActionKind,
}

/// A row of the program payload table.
#[derive(Clone, Debug)]
pub struct ProgramItem {
    pub id: u64,
    pub name: String,
    pub path: String,
}

/// A row of the desktop payload table.
#[derive(Clone, Debug)]
pub struct DesktopItem {
    pub id: u64,
    pub name: String,
    pub exec_cmd: String,
    pub accepts_args: bool,
}

/// A row of the handler enablement table.
#[derive(Clone, Debug)]
pub struct ActionHandlerModel {
    pub id: String,
    pub enabled: bool,
}

/// One committed execution: which action, and when (local minutes).
#[derive(Clone, Debug)]
pub struct ExecutionRecord {
    pub action_id: String,
    pub minutes: u64,
}

#[verifier::ext_equal]
pub struct ActionRowView {
    pub id: int,
    pub name: Seq<char>,
    pub searchname: Seq<char>,
    pub kind: ActionKind,
}

#[verifier::ext_equal]
pub struct ProgramRowView {
    pub id: int,
    pub name: Seq<char>,
    pub path: Seq<char>,
}

#[verifier::ext_equal]
pub struct DesktopRowView {
    pub id: int,
    pub name: Seq<char>,
    pub exec_cmd: Seq<char>,
    pub accepts_args: bool,
}

#[verifier::ext_equal]
pub struct HandlerRowView {
    pub id: Seq<char>,
    pub enabled: bool,
}

#[verifier::ext_equal]
pub struct ExecutionView {
    pub action_id: Seq<char>,
    pub minutes: int,
}

impl View for Action {
    type V = ActionRowView;

    open spec fn view(&self) -> ActionRowView {
        ActionRowView {
            id: self.id as int,
            name: self.name@,
            searchname: self.searchname@,
            kind: self.kind,
        }
    }
}

impl View for ProgramItem {
    type V = ProgramRowView;

    open spec fn view(&self) -> ProgramRowView {
        ProgramRowView { id: self.id as int, name: self.name@, path: self.path@ }
    }
}

impl View for DesktopItem {
    type V = DesktopRowView;

    open spec fn view(&self) -> DesktopRowView {
        DesktopRowView {
            id: self.id as int,
            name: self.name@,
            exec_cmd: self.exec_cmd@,
            accepts_args: self.accepts_args,
        }
    }
}

impl View for ActionHandlerModel {
    type V = HandlerRowView;

    open spec fn view(&self) -> HandlerRowView {
        HandlerRowView { id: self.id@, enabled: self.enabled }
    }
}

impl View for ExecutionRecord {
    type V = ExecutionView;

    open spec fn view(&self) -> ExecutionView {
        ExecutionView { action_id: self.action_id@, minutes: self.minutes as int }
    }
}

/// The store as mathematics: five tables of row views.
#[verifier::ext_equal]
pub struct StoreView {
    pub actions: Seq<ActionRowView>,
    pub programs: Seq<ProgramRowView>,
    pub desktops: Seq<DesktopRowView>,
    pub executions: Seq<ExecutionView>,
    pub handlers: Seq<HandlerRowView>,
}

/// The execution ledger refuses to grow past this row count, so that
/// every score fits comfortably in a machine word.
pub const EXEC_CAP: u64 = 1048576;

/// The store refuses to hold more distinct actions than this.
pub const ACTION_CAP: u64 = 268435456;

/// A discovered action with this name and kind is already stored.
pub open spec fn has_action_view(s: Seq<ActionRowView>, name: Seq<char>, kind: ActionKind) -> bool {
    exists|i: int| 0 <= i < s.len() && s[i].name == name && s[i].kind == kind
}

/// The id of the stored action with this name and kind.
pub open spec fn action_id_of(s: Seq<ActionRowView>, name: Seq<char>, kind: ActionKind) -> int {
    (choose|i: int| 0 <= i < s.len() && s[i].name == name && s[i].kind == kind) + 1
}

pub open spec fn has_program_row(s: Seq<ProgramRowView>, id: int) -> bool {
    exists|i: int| 0 <= i < s.len() && s[i].id == id
}

pub open spec fn has_desktop_row(s: Seq<DesktopRowView>, id: int) -> bool {
    exists|i: int| 0 <= i < s.len() && s[i].id == id
}

pub open spec fn has_handler_row(s: Seq<HandlerRowView>, id: Seq<char>) -> bool {
    exists|i: int| 0 <= i < s.len() && s[i].id == id
}

/// Well-formedness of the store: ids are dense and one-based, the
/// `(name, kind)` pair is unique, searchnames are derived from names,
/// payload rows point at an action of their kind, at most one payload
/// row per action, handler ids are unique, and the ledger respects its
/// cap.
pub open spec fn wf_view(v: StoreView) -> bool {
    &&& forall|i: int| 0 <= i < v.actions.len() ==> #[trigger] v.actions[i].id == i + 1
    &&& forall|i: int, j: int|
        0 <= i < j < v.actions.len() ==> !(#[trigger] v.actions[i].name == #[trigger] v.actions[j].name
            && v.actions[i].kind == v.actions[j].kind)
    &&& forall|i: int|
        0 <= i < v.actions.len() ==> #[trigger] v.actions[i].searchname == searchname_seq(
            v.actions[i].name,
        )
    &&& v.actions.len() <= ACTION_CAP
    &&& forall|i: int|
        0 <= i < v.programs.len() ==> 1 <= #[trigger] v.programs[i].id <= v.actions.len()
            && v.actions[v.programs[i].id - 1].kind == ActionKind::Program
            && v.actions[v.programs[i].id - 1].name == v.programs[i].name
    &&& forall|i: int, j: int|
        0 <= i < j < v.programs.len() ==> #[trigger] v.programs[i].id != #[trigger] v.programs[j].id
    &&& forall|i: int|
        0 <= i < v.desktops.len() ==> 1 <= #[trigger] v.desktops[i].id <= v.actions.len()
            && v.actions[v.desktops[i].id - 1].kind == ActionKind::Desktop
            && v.actions[v.desktops[i].id - 1].name == v.desktops[i].name
    &&& forall|i: int, j: int|
        0 <= i < j < v.desktops.len() ==> #[trigger] v.desktops[i].id != #[trigger] v.desktops[j].id
    &&& forall|i: int, j: int|
        0 <= i < j < v.handlers.len() ==> #[trigger] v.handlers[i].id != #[trigger] v.handlers[j].id
    &&& v.executions.len() <= EXEC_CAP
}

/// Inserting an action: a no-op returning the stored id when the
/// `(name, kind)` pair exists, a refusal (id 0) when the store is full,
/// a fresh row with the next id otherwise.
pub open spec fn insert_action_spec(v: StoreView, name: Seq<char>, kind: ActionKind) -> (
    StoreView,
    int,
) {
    if has_action_view(v.actions, name, kind) {
        (v, action_id_of(v.actions, name, kind))
    } else if v.actions.len() >= ACTION_CAP {
        (v, 0)
    } else {
        let row = ActionRowView {
            id: v.actions.len() as int + 1,
            name: name,
            searchname: searchname_seq(name),
            kind: kind,
        };
        (StoreView { actions: v.actions.push(row), ..v }, v.actions.len() as int + 1)
    }
}

/// Inserting a program: the idempotent action insert, then an
/// ignore-on-conflict payload row keyed by the action id.
pub open spec fn insert_program_spec(v: StoreView, name: Seq<char>, path: Seq<char>) -> (
    StoreView,
    int,
) {
    let (v1, id) = insert_action_spec(v, name, ActionKind::Program);
    if id == 0 || has_program_row(v1.programs, id) {
        (v1, id)
    } else {
        let row = ProgramRowView { id: id, name: name, path: path };
        (StoreView { programs: v1.programs.push(row), ..v1 }, id)
    }
}

/// Inserting a desktop entry, as `insert_program_spec`.
pub open spec fn insert_desktop_spec(
    v: StoreView,
    name: Seq<char>,
    exec_cmd: Seq<char>,
    accepts_args: bool,
) -> (StoreView, int) {
    let (v1, id) = insert_action_spec(v, name, ActionKind::Desktop);
    if id == 0 || has_desktop_row(v1.desktops, id) {
        (v1, id)
    } else {
        let row = DesktopRowView { id: id, name: name, exec_cmd: exec_cmd, accepts_args: accepts_args };
        (StoreView { desktops: v1.desktops.push(row), ..v1 }, id)
    }
}

/// Appending to the execution ledger; refused (false) only at the cap.
pub open spec fn log_execution_spec(v: StoreView, action_id: Seq<char>, minutes: int) -> (
    StoreView,
    bool,
) {
    if v.executions.len() < EXEC_CAP {
        (
            StoreView {
                executions: v.executions.push(
                    ExecutionView { action_id: action_id, minutes: minutes },
                ),
                ..v
            },
            true,
        )
    } else {
        (v, false)
    }
}

/// First registration of a handler: enabled by default, a no-op if the
/// row exists.
pub open spec fn register_handler_spec(v: StoreView, id: Seq<char>) -> StoreView {
    if has_handler_row(v.handlers, id) {
        v
    } else {
        StoreView { handlers: v.handlers.push(HandlerRowView { id: id, enabled: true }), ..v }
    }
}

/// Updates the enablement of a registered handler; a no-op when the
/// handler was never registered.
pub open spec fn set_handler_enabled_spec(v: StoreView, id: Seq<char>, enabled: bool) -> StoreView {
    StoreView {
        handlers: Seq::new(
            v.handlers.len(),
            |i: int|
                if v.handlers[i].id == id {
                    HandlerRowView { id: v.handlers[i].id, enabled: enabled }
                } else {
                    v.handlers[i]
                },
        ),
        ..v
    }
}

/// A handler counts as enabled when its row exists and says so; a
/// handler that was never registered is not served.
pub open spec fn handler_enabled_view(v: StoreView, id: Seq<char>) -> bool {
    exists|i: int| 0 <= i < v.handlers.len() && v.handlers[i].id == id && v.handlers[i].enabled
}

/// How many ledger rows name this action.
pub open spec fn count_execs(s: Seq<ExecutionView>, id: Seq<char>) -> int
    decreases s.len(),
{
    if s.len() == 0 {
        0
    } else {
        count_execs(s.drop_last(), id) + if s.last().action_id == id {
            1int
        } else {
            0int
        }
    }
}

pub proof fn lemma_count_execs_bounds(s: Seq<ExecutionView>, id: Seq<char>)
    ensures
        0 <= count_execs(s, id) <= s.len(),
    decreases s.len(),
{
    if s.len() > 0 {
        lemma_count_execs_bounds(s.drop_last(), id);
    }
}

/// The scan is owed exactly when no discovered action is stored.
pub open spec fn needs_scan_view(v: StoreView) -> bool {
    !(exists|i: int|
        0 <= i < v.actions.len() && (v.actions[i].kind == ActionKind::Program
            || v.actions[i].kind == ActionKind::Desktop))
}

/// The durable store, as the engine sees it.
pub struct ActionStore {
    actions: Vec<Action>,
    programs: Vec<ProgramItem>,
    desktops: Vec<DesktopItem>,
    executions: Vec<ExecutionRecord>,
    handlers: Vec<ActionHandlerModel>,
}

impl View for ActionStore {
    type V = StoreView;

    closed spec fn view(&self) -> StoreView {
        StoreView {
            actions: self.actions@.map_values(|a: Action| a@),
            programs: self.programs@.map_values(|a: ProgramItem| a@),
            desktops: self.desktops@.map_values(|a: DesktopItem| a@),
            executions: self.executions@.map_values(|a: ExecutionRecord| a@),
            handlers: self.handlers@.map_values(|a: ActionHandlerModel| a@),
        }
    }
}

impl ActionStore {
    /// The store is well formed.
    pub open spec fn wf(&self) -> bool {
        wf_view(self@)
    }

    /// An empty store: the state of a first run.
    pub fn new() -> (r: ActionStore)
        ensures
            r.wf(),
            r@.actions =~= Seq::<ActionRowView>::empty(),
            r@.programs =~= Seq::<ProgramRowView>::empty(),
            r@.desktops =~= Seq::<DesktopRowView>::empty(),
            r@.executions =~= Seq::<ExecutionView>::empty(),
            r@.handlers =~= Seq::<HandlerRowView>::empty(),
    {
        let r = ActionStore {
            actions: Vec::new(),
            programs: Vec::new(),
            desktops: Vec::new(),
            executions: Vec::new(),
            handlers: Vec::new(),
        };
        proof {
            assert(r@.actions =~= Seq::<ActionRowView>::empty());
            assert(r@.programs =~= Seq::<ProgramRowView>::empty());
            assert(r@.desktops =~= Seq::<DesktopRowView>::empty());
            assert(r@.executions =~= Seq::<ExecutionView>::empty());
            assert(r@.handlers =~= Seq::<HandlerRowView>::empty());
        }
        r
    }

    /// Finds the index of the stored action with this name and kind.
    fn find_action(&self, name: &str, kind: ActionKind) -> (r: Option<usize>)
        requires
            self.wf(),
        ensures
            match r {
                Some(i) => i < self@.actions.len() && self@.actions[i as int].name == name@
                    && self@.actions[i as int].kind == kind,
                None => !has_action_view(self@.actions, name@, kind),
            },
    {
        let mut i: usize = 0;
        while i < self.actions.len()
            invariant
                self.wf(),
                i <= self@.actions.len(),
                self@.actions.len() == self.actions@.len(),
                forall|k: int|
                    0 <= k < i ==> !(#[trigger] self@.actions[k].name == name@
                        && self@.actions[k].kind == kind),
            decreases self.actions@.len() - i,
        {
            proof {
                assert(self@.actions[i as int] == self.actions@[i as int]@);
            }
            if str_eq(self.actions[i].name.as_str(), name) && self.actions[i].kind == kind {
                return Some(i);
            }
            i = i + 1;
        }
        None
    }

    
/// Idempotent insert of a discovered action row; returns the stored
    /// id, or 0 when a full store refuses a fresh row.
    pub fn insert_action(&mut self, name: &str, kind: ActionKind) -> (r: u64)
        requires
            old(self).wf(),
        ensures
            final(self).wf(),
            final(self)@ == insert_action_spec(old(self)@, name@, kind).0,
            r as int == insert_action_spec(old(self)@, name@, kind).1,
    {
        match self.find_action(name, kind) {
            Some(i) => {
                let id = self.actions[i].id;
                proof {
                    assert(self@.actions[i as int] == self.actions@[i as int]@);
                    assert(has_action_view(self@.actions, name@, kind));
                    let c = choose|k: int|
                        0 <= k < self@.actions.len() && self@.actions[k].name == name@
                            && self@.actions[k].kind == kind;
                    assert(self@.actions[c].name == self@.actions[i as int].name
                        && self@.actions[c].kind == self@.actions[i as int].kind);
                    if c < i as int {
                        assert(!(self@.actions[c].name == self@.actions[i as int].name
                            && self@.actions[c].kind == self@.actions[i as int].kind));
                    } else if (i as int) < c {
                        assert(!(self@.actions[i as int].name == self@.actions[c].name
                            && self@.actions[i as int].kind == self@.actions[c].kind));
                    }
                    assert(c == i as int);
                    assert(self@.actions[i as int].id == i + 1);
                    assert(id as int == i + 1);
                }
                id
            },
            None => {
                if self.actions.len() >= 268435456 {
                    return 0;
                }
                let ghost oldv = self@;
                let name_chars = chars_of(name);
                let sn_chars = searchname_chars(&name_chars);
                let sn = string_from_chars(&sn_chars);
                let id = (self.actions.len() as u64) + 1;
                let row = Action { id: id, name: name.to_owned(), searchname: sn, kind: kind };
                proof {
                    assert(row@.name == name@);
                    assert(row@.searchname == searchname_seq(name@));
                }
                self.actions.push(row);
                proof {
                    let newv = insert_action_spec(oldv, name@, kind).0;
                    assert(self@.actions =~= oldv.actions.push(
                        insert_action_spec(oldv, name@, kind).0.actions.last(),
                    ));
                    assert(self@ =~= newv);
                    assert(wf_view(self@));
                }
                id
            },
        }
    }

    /// Idempotent insert of a program, as the scanner found it.
    pub fn insert_program(&mut self, name: &str, path: &str) -> (r: u64)
        requires
            old(self).wf(),
        ensures
            final(self).wf(),
            final(self)@ == insert_program_spec(old(self)@, name@, path@).0,
            r as int == insert_program_spec(old(self)@, name@, path@).1,
    {
        let ghost oldv = self@;
        proof {
            lemma_insert_action_effect(oldv, name@, ActionKind::Program);
        }
        let id = self.insert_action(name, ActionKind::Program);
        if id == 0 {
            return 0;
        }
        let mut i: usize = 0;
        while i < self.programs.len()
            invariant
                oldv == old(self)@,
                self.wf(),
                id != 0,
                wf_view(insert_action_spec(oldv, name@, ActionKind::Program).0),
                self@ == insert_action_spec(oldv, name@, ActionKind::Program).0,
                id as int == insert_action_spec(oldv, name@, ActionKind::Program).1,
                1 <= id as int <= self@.actions.len(),
                self@.actions[id as int - 1].name == name@,
                self@.actions[id as int - 1].kind == ActionKind::Program,
                i <= self@.programs.len(),
                self@.programs.len() == self.programs@.len(),
                forall|k: int| 0 <= k < i ==> #[trigger] self@.programs[k].id != id as int,
            decreases self.programs@.len() - i,
        {
            proof {
                assert(self@.programs[i as int] == self.programs@[i as int]@);
            }
            if self.programs[i].id == id {
                proof {
                    assert(has_program_row(self@.programs, id as int));
                }
                return id;
            }
            i = i + 1;
        }
        proof {
            assert(!has_program_row(self@.programs, id as int));
        }
        let ghost midv = self@;
        let row = ProgramItem { id: id, name: name.to_owned(), path: path.to_owned() };
        self.programs.push(row);
        proof {
            let target = insert_program_spec(oldv, name@, path@).0;
            assert(self@.programs =~= midv.programs.push(
                ProgramRowView { id: id as int, name: name@, path: path@ },
            ));
            assert(self@ =~= target);
            assert(wf_view(self@)) by {
                assert(forall|k: int|
                    0 <= k < midv.programs.len() ==> #[trigger] self@.programs[k]
                        == midv.programs[k]);
            }
        }
        id
    }

    /// Idempotent insert of a desktop entry, as the scanner found it.
    pub fn insert_desktop(&mut self, name: &str, exec_cmd: &str, accepts_args: bool) -> (r: u64)
        requires
            old(self).wf(),
        ensures
            final(self).wf(),
            final(self)@ == insert_desktop_spec(old(self)@, name@, exec_cmd@, accepts_args).0,
            r as int == insert_desktop_spec(old(self)@, name@, exec_cmd@, accepts_args).1,
    {
        let ghost oldv = self@;
        proof {
            lemma_insert_action_effect(oldv, name@, ActionKind::Desktop);
        }
        let id = self.insert_action(name, ActionKind::Desktop);
        if id == 0 {
            return 0;
        }
        let mut i: usize = 0;
        while i < self.desktops.len()
            invariant
                oldv == old(self)@,
                self.wf(),
                id != 0,
                wf_view(insert_action_spec(oldv, name@, ActionKind::Desktop).0),
                self@ == insert_action_spec(oldv, name@, ActionKind::Desktop).0,
                id as int == insert_action_spec(oldv, name@, ActionKind::Desktop).1,
                1 <= id as int <= self@.actions.len(),
                self@.actions[id as int - 1].name == name@,
                self@.actions[id as int - 1].kind == ActionKind::Desktop,
                i <= self@.desktops.len(),
                self@.desktops.len() == self.desktops@.len(),
                forall|k: int| 0 <= k < i ==> #[trigger] self@.desktops[k].id != id as int,
            decreases self.desktops@.len() - i,
        {
            proof {
                assert(self@.desktops[i as int] == self.desktops@[i as int]@);
            }
            if self.desktops[i].id == id {
                proof {
                    assert(has_desktop_row(self@.desktops, id as int));
                }
                return id;
            }
            i = i + 1;
        }
        proof {
            assert(!has_desktop_row(self@.desktops, id as int));
        }
        let ghost midv = self@;
        let row = DesktopItem {
            id: id,
            name: name.to_owned(),
            exec_cmd: exec_cmd.to_owned(),
            accepts_args: accepts_args,
        };
        self.desktops.push(row);
        proof {
            let target = insert_desktop_spec(oldv, name@, exec_cmd@, accepts_args).0;
            assert(self@.desktops =~= midv.desktops.push(
                DesktopRowView {
                    id: id as int,
                    name: name@,
                    exec_cmd: exec_cmd@,
                    accepts_args: accepts_args,
                },
            ));
            assert(self@ =~= target);
            assert(wf_view(self@)) by {
                assert(forall|k: int|
                    0 <= k < midv.desktops.len() ==> #[trigger] self@.desktops[k]
                        == midv.desktops[k]);
            }
        }
        id
    }

    /// Inserts a discovered action with its payload row, by kind.
    pub fn insert_discovered(&mut self, action: &ActionType) -> (r: u64)
        requires
            old(self).wf(),
        ensures
            final(self).wf(),
            match action {
                ActionType::Program { name, path } => final(self)@ == insert_program_spec(
                    old(self)@,
                    name@,
                    path@,
                ).0 && r as int == insert_program_spec(old(self)@, name@, path@).1,
                ActionType::Desktop { name, exec_cmd, accepts_args } => final(self)@
                    == insert_desktop_spec(old(self)@, name@, exec_cmd@, *accepts_args).0
                    && r as int == insert_desktop_spec(
                    old(self)@,
                    name@,
                    exec_cmd@,
                    *accepts_args,
                ).1,
            },
    {
        match action {
            ActionType::Program { name, path } => self.insert_program(
                name.as_str(),
                path.as_str(),
            ),
            ActionType::Desktop { name, exec_cmd, accepts_args } => self.insert_desktop(
                name.as_str(),
                exec_cmd.as_str(),
                *accepts_args,
            ),
        }
    }

    /// Appends one execution record; reports whether it was recorded.
    pub fn log_execution_at(&mut self, action_id: &str, minutes: u64) -> (r: bool)
        requires
            old(self).wf(),
        ensures
            final(self).wf(),
            final(self)@ == log_execution_spec(old(self)@, action_id@, minutes as int).0,
            r == log_execution_spec(old(self)@, action_id@, minutes as int).1,
    {
        let ghost oldv = self@;
        if self.executions.len() >= 1048576 {
            return false;
        }
        let row = ExecutionRecord { action_id: action_id.to_owned(), minutes: minutes };
        self.executions.push(row);
        proof {
            assert(self@.executions =~= oldv.executions.push(
                ExecutionView { action_id: action_id@, minutes: minutes as int },
            ));
            assert(self@ =~= log_execution_spec(oldv, action_id@, minutes as int).0);
        }
        true
    }

    /// How many times this action was executed.
    pub fn get_execution_count(&self, action_id: &str) -> (r: u64)
        requires
            self.wf(),
        ensures
            r as int == count_execs(self@.executions, action_id@),
    {
        let mut total: u64 = 0;
        let mut i: usize = 0;
        proof {
            lemma_count_execs_bounds(self@.executions, action_id@);
        }
        while i < self.executions.len()
            invariant
                i <= self.executions@.len(),
                self@.executions.len() == self.executions@.len(),
                self@.executions.len() <= EXEC_CAP,
                total as int == count_execs(self@.executions.take(i as int), action_id@),
                total <= i,
            decreases self.executions@.len() - i,
        {
            proof {
                assert(self@.executions.take(i + 1).drop_last() =~= self@.executions.take(i as int));
                assert(self@.executions.take(i + 1).last() == self@.executions[i as int]);
                assert(self@.executions[i as int] == self.executions@[i as int]@);
            }
            if str_eq(self.executions[i].action_id.as_str(), action_id) {
                total = total + 1;
            }
            i = i + 1;
        }
        proof {
            assert(self@.executions.take(self@.executions.len() as int) =~= self@.executions);
        }
        total
    }

    /// Registers a handler, enabled by default; a no-op if it exists.
    pub fn register_handler(&mut self, handler_id: &str)
        requires
            old(self).wf(),
        ensures
            final(self).wf(),
            final(self)@ == register_handler_spec(old(self)@, handler_id@),
    {
        let ghost oldv = self@;
        let mut i: usize = 0;
        while i < self.handlers.len()
            invariant
                oldv == old(self)@,
                self.wf(),
                self@ == oldv,
                i <= self@.handlers.len(),
                self@.handlers.len() == self.handlers@.len(),
                forall|k: int| 0 <= k < i ==> #[trigger] self@.handlers[k].id != handler_id@,
            decreases self.handlers@.len() - i,
        {
            proof {
                assert(self@.handlers[i as int] == self.handlers@[i as int]@);
            }
            if str_eq(self.handlers[i].id.as_str(), handler_id) {
                proof {
                    assert(has_handler_row(self@.handlers, handler_id@));
                }
                return;
            }
            i = i + 1;
        }
        proof {
            assert(!has_handler_row(self@.handlers, handler_id@));
        }
        let row = ActionHandlerModel { id: handler_id.to_owned(), enabled: true };
        self.handlers.push(row);
        proof {
            assert(self@.handlers =~= oldv.handlers.push(
                HandlerRowView { id: handler_id@, enabled: true },
            ));
            assert(self@ =~= register_handler_spec(oldv, handler_id@));
            assert(wf_view(self@)) by {
                assert(forall|k: int|
                    0 <= k < oldv.handlers.len() ==> #[trigger] self@.handlers[k]
                        == oldv.handlers[k]);
            }
        }
    }

    /// Enables or disables a registered handler.
    pub fn set_handler_enabled(&mut self, handler_id: &str, enabled: bool)
        requires
            old(self).wf(),
        ensures
            final(self).wf(),
            final(self)@ == set_handler_enabled_spec(old(self)@, handler_id@, enabled),
    {
        let ghost oldv = self@;
        let mut i: usize = 0;
        while i < self.handlers.len()
            invariant
                old(self).wf(),
                self.wf(),
                i <= self.handlers@.len(),
                self@.handlers.len() == self.handlers@.len(),
                oldv.handlers.len() == self@.handlers.len(),
                self@.actions == oldv.actions,
                self@.programs == oldv.programs,
                self@.desktops == oldv.desktops,
                self@.executions == oldv.executions,
                forall|k: int|
                    0 <= k < i ==> #[trigger] self@.handlers[k] == (if oldv.handlers[k].id
                        == handler_id@ {
                        HandlerRowView { id: oldv.handlers[k].id, enabled: enabled }
                    } else {
                        oldv.handlers[k]
                    }),
                forall|k: int|
                    i <= k < self@.handlers.len() ==> #[trigger] self@.handlers[k]
                        == oldv.handlers[k],
            decreases self.handlers@.len() - i,
        {
            proof {
                assert(self@.handlers[i as int] == self.handlers@[i as int]@);
            }
            if str_eq(self.handlers[i].id.as_str(), handler_id) {
                let ghost prev = self@;
                let replacement = ActionHandlerModel { id: handler_id.to_owned(), enabled: enabled };
                self.handlers.set(i, replacement);
                proof {
                    assert(self@.handlers =~= prev.handlers.update(
                        i as int,
                        HandlerRowView { id: handler_id@, enabled: enabled },
                    ));
                    assert(oldv.handlers[i as int].id == handler_id@);
                }
            }
            i = i + 1;
        }
        proof {
            assert(self@ =~= set_handler_enabled_spec(oldv, handler_id@, enabled)) by {
                assert(self@.handlers =~= set_handler_enabled_spec(
                    oldv,
                    handler_id@,
                    enabled,
                ).handlers);
            }
        }
    }

    /// Whether a handler is registered and enabled.
    pub fn is_handler_enabled(&self, handler_id: &str) -> (r: bool)
        requires
            self.wf(),
        ensures
            r == handler_enabled_view(self@, handler_id@),
    {
        let mut i: usize = 0;
        while i < self.handlers.len()
            invariant
                i <= self.handlers@.len(),
                self@.handlers.len() == self.handlers@.len(),
                forall|k: int|
                    0 <= k < i ==> !(#[trigger] self@.handlers[k].id == handler_id@
                        && self@.handlers[k].enabled),
            decreases self.handlers@.len() - i,
        {
            proof {
                assert(self@.handlers[i as int] == self.handlers@[i as int]@);
            }
            if str_eq(self.handlers[i].id.as_str(), handler_id) && self.handlers[i].enabled {
                return true;
            }
            i = i + 1;
        }
        false
    }

    /// Whether the store still holds no discovered action.
    pub fn needs_scan(&self) -> (r: bool)
        requires
            self.wf(),
        ensures
            r == needs_scan_view(self@),
    {
        if self.actions.len() == 0 {
            true
        } else {
            proof {
                assert(self@.actions[0] == self.actions@[0]@);
                assert(self@.actions[0].kind == ActionKind::Program || self@.actions[0].kind
                    == ActionKind::Desktop) by {
                    let k = self.actions@[0]@.kind;
                    assert(k == ActionKind::Program || k == ActionKind::Desktop);
                }
            }
            false
        }
    }

    /// Number of stored actions.
    pub fn action_count(&self) -> (r: usize)
        ensures
            r as int == self@.actions.len(),
    {
        self.actions.len()
    }

    /// The stored action rows, for the ranking engine.
    pub fn actions(&self) -> (r: &Vec<Action>)
        ensures
            r@.map_values(|a: Action| a@) == self@.actions,
    {
        &self.actions
    }

    /// The program payload rows.
    pub fn programs(&self) -> (r: &Vec<ProgramItem>)
        ensures
            r@.map_values(|a: ProgramItem| a@) == self@.programs,
    {
        &self.programs
    }

    /// The desktop payload rows.
    pub fn desktops(&self) -> (r: &Vec<DesktopItem>)
        ensures
            r@.map_values(|a: DesktopItem| a@) == self@.desktops,
    {
        &self.desktops
    }

    /// The execution ledger.
    pub fn executions(&self) -> (r: &Vec<ExecutionRecord>)
        ensures
            r@.map_values(|a: ExecutionRecord| a@) == self@.executions,
    {
        &self.executions
    }
}

/// What the action insert guarantees about the id it returns.
pub proof fn lemma_insert_action_effect(v: StoreView, name: Seq<char>, kind: ActionKind)
    requires
        wf_view(v),
    ensures
        ({
            let (v1, id) = insert_action_spec(v, name, kind);
            &&& wf_view(v1)
            &&& v1.programs == v.programs
            &&& v1.desktops == v.desktops
            &&& v1.executions == v.executions
            &&& v1.handlers == v.handlers
            &&& (id != 0 ==> 1 <= id <= v1.actions.len() && v1.actions[id - 1].name == name
                && v1.actions[id - 1].kind == kind)
        }),
{
    let (v1, id) = insert_action_spec(v, name, kind);
    if has_action_view(v.actions, name, kind) {
        let c = choose|i: int|
            0 <= i < v.actions.len() && v.actions[i].name == name && v.actions[i].kind == kind;
        assert(v.actions[c].id == c + 1);
    } else if v.actions.len() >= ACTION_CAP {
    } else {
        assert(v1.actions.last().name == name && v1.actions.last().kind == kind);
        assert(forall|i: int|
            0 <= i < v.actions.len() ==> #[trigger] v1.actions[i] == v.actions[i]);
        assert(wf_view(v1));
    }
}

/// Inserting the same desktop entry twice stores it once: the second
/// insert returns the same id and leaves the store untouched.
pub proof fn lemma_insert_desktop_idempotent(
    v: StoreView,
    name: Seq<char>,
    exec_cmd: Seq<char>,
    accepts_args: bool,
)
    requires
        wf_view(v),
    ensures
        ({
            let (v1, id) = insert_desktop_spec(v, name, exec_cmd, accepts_args);
            insert_desktop_spec(v1, name, exec_cmd, accepts_args) == (v1, id)
        }),
{
    let (v1, id) = insert_desktop_spec(v, name, exec_cmd, accepts_args);
    let (va, ida) = insert_action_spec(v, name, ActionKind::Desktop);
    if has_action_view(v.actions, name, ActionKind::Desktop) {
        let c = choose|i: int|
            0 <= i < v.actions.len() && v.actions[i].name == name && v.actions[i].kind
                == ActionKind::Desktop;
        assert(ida == c + 1);
        if has_desktop_row(v.desktops, ida) {
            assert(v1 == v);
            assert(insert_desktop_spec(v1, name, exec_cmd, accepts_args) == (v1, id));
        } else {
            assert(v1.actions == v.actions);
            assert(has_desktop_row(v1.desktops, ida)) by {
                assert(v1.desktops.last().id == ida);
            }
            assert(insert_desktop_spec(v1, name, exec_cmd, accepts_args) == (v1, id));
        }
    } else if v.actions.len() >= ACTION_CAP {
        assert(v1 == v && id == 0);
    } else {
        assert(va.actions.last().name == name && va.actions.last().kind == ActionKind::Desktop);
        assert(has_action_view(va.actions, name, ActionKind::Desktop));
        assert(v1.actions == va.actions);
        let c2 = choose|i: int|
            0 <= i < v1.actions.len() && v1.actions[i].name == name && v1.actions[i].kind
                == ActionKind::Desktop;
        assert(v1.actions[c2].name == name && v1.actions[c2].kind == ActionKind::Desktop);
        assert(c2 == v.actions.len()) by {
            if c2 < v.actions.len() {
                assert(v.actions[c2] == va.actions[c2]);
                assert(has_action_view(v.actions, name, ActionKind::Desktop));
            }
        }
        assert(action_id_of(v1.actions, name, ActionKind::Desktop) == id);
        assert(has_desktop_row(v1.desktops, id)) by {
            assert(v1.desktops.last().id == id);
        }
        assert(insert_desktop_spec(v1, name, exec_cmd, accepts_args) == (v1, id));
    }
}

} // verus!
