//! The conductor's decisions: the lifecycle of a task on the blackboard, the
//! outcome of transpiling and verifying one unit, and whether a unit is
//! dispatched again on a later run.
use vstd::prelude::*;

verus! {

/// State of a task on the blackboard.
#[derive(Clone, Copy, Debug, PartialEq, Eq, Structural)]
pub enum TaskState {
    Pending,
    InProgress,
    Completed,
    Failed,
}

/// How a state is written in the store.
pub open spec fn state_text(s: TaskState) -> Seq<char> {
    match s {
        TaskState::Pending => "PENDING"@,
        TaskState::InProgress => "IN_PROGRESS"@,
        TaskState::Completed => "COMPLETED"@,
        TaskState::Failed => "FAILED"@,
    }
}

/// Whether no further work is due on a task in state `s`.
pub open spec fn is_terminal(s: TaskState) -> bool {
    s == TaskState::Completed || s == TaskState::Failed
}

impl TaskState {
    /// The text that stands for this state in the store.
    pub fn as_db_str(&self) -> (r: String)
        ensures
            r@ == state_text(*self),
    {
        match self {
            TaskState::Pending => "PENDING".to_owned(),
            TaskState::InProgress => "IN_PROGRESS".to_owned(),
            TaskState::Completed => "COMPLETED".to_owned(),
            TaskState::Failed => "FAILED".to_owned(),
        }
    }

    /// The state that `s` stands for in the store, if any.
    pub fn from_db_str(s: &String) -> (r: Option<TaskState>)
        ensures
            r matches Some(t) ==> state_text(t) == s@,
            r is None ==> forall|t: TaskState| state_text(t) != s@,
    {
        if *s == "PENDING".to_owned() {
            Some(TaskState::Pending)
        } else if *s == "IN_PROGRESS".to_owned() {
            Some(TaskState::InProgress)
        } else if *s == "COMPLETED".to_owned() {
            Some(TaskState::Completed)
        } else if *s == "FAILED".to_owned() {
            Some(TaskState::Failed)
        } else {
            None
        }
    }

    pub fn is_terminal(&self) -> (r: bool)
        ensures
            r == is_terminal(*self),
    {
        match self {
            TaskState::Completed | TaskState::Failed => true,
            _ => false,
        }
    }
}

/// What came of transpiling and verifying one unit.
pub enum UnitOutcome {
    /// The oracle failed, with this message.
    TranspileFailed(String),
    /// The candidate code did not compile; the compiler's error output.
    VerifyFailed(String, String),
    /// The candidate code compiled.
    Verified(String),
}

/// The terminal record of a task: state, translated code, error log.
pub struct TaskRecord {
    pub state: TaskState,
    pub code: Option<String>,
    pub error: Option<String>,
}

/// View of an optional text.
pub open spec fn opt_view(o: Option<String>) -> Option<Seq<char>> {
    match o {
        Some(s) => Some(s@),
        None => None,
    }
}

/// State, code and error log that `outcome` leaves on its task.
pub open spec fn outcome_fields(outcome: UnitOutcome) -> (TaskState, Option<Seq<char>>, Option<Seq<char>>) {
    match outcome {
        UnitOutcome::TranspileFailed(e) => (TaskState::Failed, None, Some(e@)),
        UnitOutcome::VerifyFailed(c, e) => (TaskState::Failed, Some(c@), Some(e@)),
        UnitOutcome::Verified(c) => (TaskState::Completed, Some(c@), None),
    }
}

/// The record an outcome leaves: a failed transpilation keeps its message and
/// no code, a failed verification keeps both the code and the compiler's
/// output, and a verified unit keeps its code.
pub fn record_outcome(outcome: UnitOutcome) -> (r: TaskRecord)
    ensures
        is_terminal(r.state),
        (r.state, opt_view(r.code), opt_view(r.error)) == outcome_fields(outcome),
        match outcome {
            UnitOutcome::TranspileFailed(e) => r.state == TaskState::Failed && r.code is None
                && opt_view(r.error) == Some(e@),
            UnitOutcome::VerifyFailed(c, e) => r.state == TaskState::Failed && opt_view(r.code)
                == Some(c@) && opt_view(r.error) == Some(e@),
            UnitOutcome::Verified(c) => r.state == TaskState::Completed && opt_view(r.code) == Some(
                c@,
            ) && r.error is None,
        },
{
    match outcome {
        UnitOutcome::TranspileFailed(e) => TaskRecord { state: TaskState::Failed, code: None, error: Some(e) },
        UnitOutcome::VerifyFailed(c, e) => TaskRecord {
            state: TaskState::Failed,
            code: Some(c),
            error: Some(e),
        },
        UnitOutcome::Verified(c) => TaskRecord { state: TaskState::Completed, code: Some(c), error: None },
    }
}

/// Whether a unit whose task is in `existing` (none when it has no task yet)
/// is dispatched: a task that reached a terminal state is left alone unless
/// a retry is forced.
pub open spec fn dispatches(existing: Option<TaskState>, force_retry: bool) -> bool {
    match existing {
        Some(s) => !is_terminal(s) || force_retry,
        None => true,
    }
}

pub fn should_dispatch(existing: Option<TaskState>, force_retry: bool) -> (r: bool)
    ensures
        r == dispatches(existing, force_retry),
{
    match existing {
        Some(s) => !s.is_terminal() || force_retry,
        None => true,
    }
}

/// A row of the blackboard, as plain values.
pub struct TaskRow {
    pub id: String,
    pub atomic_unit_id: String,
    pub state: TaskState,
    pub code_rust: Option<String>,
    pub error_log: Option<String>,
}

/// A row seen as values: (id, unit id, state, code, error log).
pub type RowView = (Seq<char>, Seq<char>, TaskState, Option<Seq<char>>, Option<Seq<char>>);

pub open spec fn row_view(r: TaskRow) -> RowView {
    (r.id@, r.atomic_unit_id@, r.state, opt_view(r.code_rust), opt_view(r.error_log))
}

/// Position of the row keyed `id`.
pub open spec fn row_index(rows: Seq<RowView>, id: Seq<char>) -> Option<int>
    decreases rows.len(),
{
    if rows.len() == 0 {
        None
    } else if rows.last().0 == id {
        Some(rows.len() - 1)
    } else {
        row_index(rows.drop_last(), id)
    }
}

/// Rows after creating the task `id` for unit `unit`: a new pending row, or
/// nothing when a row with that key exists.
pub open spec fn created(rows: Seq<RowView>, id: Seq<char>, unit: Seq<char>) -> Seq<RowView> {
    if row_index(rows, id) is Some {
        rows
    } else {
        rows.push((id, unit, TaskState::Pending, None, None))
    }
}

/// Rows after setting state, code and error log of the row keyed `id`, if any.
pub open spec fn updated(
    rows: Seq<RowView>,
    id: Seq<char>,
    state: TaskState,
    code: Option<Seq<char>>,
    error: Option<Seq<char>>,
) -> Seq<RowView> {
    match row_index(rows, id) {
        Some(i) => rows.update(
            i,
            (
                id,
                rows[i].1,
                state,
                kept(code, rows[i].3, is_terminal(rows[i].2)),
                kept(error, rows[i].4, is_terminal(rows[i].2)),
            ),
        ),
        None => rows,
    }
}

/// The value a column takes when `new` is written over `stored`: a finished
/// task keeps its stored value when no new one is given.
pub open spec fn kept(new: Option<Seq<char>>, stored: Option<Seq<char>>, finished: bool) -> Option<Seq<char>> {
    if finished && new is None {
        stored
    } else {
        new
    }
}

/// No two rows share a key.
pub open spec fn keys_unique(rows: Seq<RowView>) -> bool {
    forall|i: int, j: int| 0 <= i < j < rows.len() ==> rows[i].0 != rows[j].0
}

/// Rows after a run begins work on `id`: the task is created if absent, and
/// moved to in-progress when it is dispatched; an unfinished task's code and
/// log are cleared, a finished one's are kept.
pub open spec fn begun(rows: Seq<RowView>, id: Seq<char>, force_retry: bool) -> Seq<RowView> {
    let c = created(rows, id, id);
    let existing = match row_index(rows, id) {
        Some(i) => Some(rows[i].2),
        None => None,
    };
    if dispatches(existing, force_retry) {
        updated(c, id, TaskState::InProgress, None, None)
    } else {
        c
    }
}

/// Number of rows keyed `id`.
pub open spec fn rows_with(rows: Seq<RowView>, id: Seq<char>) -> nat
    decreases rows.len(),
{
    if rows.len() == 0 {
        0
    } else {
        rows_with(rows.drop_last(), id) + if rows.last().0 == id { 1nat } else { 0nat }
    }
}

/// The blackboard: one row per task, keyed by unit id.
pub struct TaskBoard {
    rows: Vec<TaskRow>,
}

impl TaskBoard {
    pub closed spec fn view_rows(&self) -> Seq<RowView> {
        self.rows@.map_values(|r: TaskRow| row_view(r))
    }

    /// Every task has its own key.
    pub open spec fn wf(&self) -> bool {
        keys_unique(self.view_rows())
    }

    pub fn new() -> (r: Self)
        ensures
            r.wf(),
            r.view_rows() == Seq::<RowView>::empty(),
    {
        let r = TaskBoard { rows: Vec::new() };
        assert(r.view_rows() =~= Seq::<RowView>::empty());
        r
    }

    pub fn len(&self) -> (r: usize)
        ensures
            r == self.view_rows().len(),
    {
        self.rows.len()
    }

    fn find(&self, id: &String) -> (r: Option<usize>)
        ensures
            r matches Some(i) ==> row_index(self.view_rows(), id@) == Some(i as int) && i < self.rows.len(),
            r is None ==> row_index(self.view_rows(), id@) is None,
    {
        let ghost v = self.view_rows();
        let mut i: usize = self.rows.len();
        assert(v.take(i as int) =~= v);
        while i > 0
            invariant
                i <= self.rows.len(),
                v == self.view_rows(),
                row_index(v, id@) == row_index(v.take(i as int), id@),
            decreases i,
        {
            assert(v.take(i as int).drop_last() == v.take(i - 1));
            assert(v[i - 1].0 == self.rows@[i - 1].id@);
            if self.rows[i - 1].id == *id {
                return Some(i - 1);
            }
            i = i - 1;
        }
        None
    }

    /// Creates the task `id` for unit `atomic_unit_id` in the pending state,
    /// unless a task with that key exists.
    pub fn create_task(&mut self, id: &String, atomic_unit_id: &String)
        requires
            old(self).wf(),
        ensures
            final(self).wf(),
            final(self).view_rows() == created(old(self).view_rows(), id@, atomic_unit_id@),
    {
        if self.find(id).is_none() {
            let ghost before = self.view_rows();
            self.rows.push(TaskRow {
                id: id.clone(),
                atomic_unit_id: atomic_unit_id.clone(),
                state: TaskState::Pending,
                code_rust: None,
                error_log: None,
            });
            assert(self.view_rows() =~= before.push((id@, atomic_unit_id@, TaskState::Pending, None, None)));
            proof {
                lemma_row_index(before, id@);
            }
        }
    }

    /// Sets state, code and error log of the task `id`; no effect when it has none.
    pub fn update_task_state(
        &mut self,
        id: &String,
        state: TaskState,
        code: Option<String>,
        error: Option<String>,
    )
        requires
            old(self).wf(),
        ensures
            final(self).wf(),
            final(self).view_rows() == updated(
                old(self).view_rows(),
                id@,
                state,
                opt_view(code),
                opt_view(error),
            ),
    {
        match self.find(id) {
            Some(i) => {
                let ghost before = self.view_rows();
                let unit = self.rows[i].atomic_unit_id.clone();
                let finished = self.rows[i].state.is_terminal();
                let code = match code {
                    Some(c) => Some(c),
                    None => if finished {
                        clone_text(&self.rows[i].code_rust)
                    } else {
                        None
                    },
                };
                let error = match error {
                    Some(e) => Some(e),
                    None => if finished {
                        clone_text(&self.rows[i].error_log)
                    } else {
                        None
                    },
                };
                let ghost cv = opt_view(code);
                let ghost ev = opt_view(error);
                self.rows.set(i, TaskRow { id: id.clone(), atomic_unit_id: unit, state, code_rust: code, error_log: error });
                assert(self.view_rows() =~= before.update(i as int, (id@, before[i as int].1, state, cv, ev)));
                proof {
                    lemma_row_index(before, id@);
                    let v = self.view_rows();
                    assert forall|a: int, b: int| 0 <= a < b < v.len() implies v[a].0 != v[b].0 by {
                        assert(v[a].0 == before[a].0);
                        assert(v[b].0 == before[b].0);
                    }
                }
            },
            None => {},
        }
    }

    /// State of the task `id`, if it has one.
    pub fn get_task_state(&self, id: &String) -> (r: Option<TaskState>)
        ensures
            r == (match row_index(self.view_rows(), id@) {
                Some(i) => Some(self.view_rows()[i].2),
                None => None,
            }),
    {
        match self.find(id) {
            Some(i) => Some(self.rows[i].state),
            None => None,
        }
    }

    /// The row of task `id`, if it has one.
    pub fn row(&self, id: &String) -> (r: Option<&TaskRow>)
        ensures
            r is Some <==> row_index(self.view_rows(), id@) is Some,
            r matches Some(row) ==> row_view(*row) == self.view_rows()[row_index(self.view_rows(), id@).unwrap()],
    {
        match self.find(id) {
            Some(i) => Some(&self.rows[i]),
            None => None,
        }
    }

    /// Begins work on unit `id` in a run: creates its task if absent and, when
    /// it is dispatched, moves it to in-progress. Returns whether it is dispatched.
    pub fn begin_unit(&mut self, id: &String, force_retry: bool) -> (r: bool)
        requires
            old(self).wf(),
        ensures
            final(self).wf(),
            r == dispatches(
                match row_index(old(self).view_rows(), id@) {
                    Some(i) => Some(old(self).view_rows()[i].2),
                    None => None,
                },
                force_retry,
            ),
            final(self).view_rows() == begun(old(self).view_rows(), id@, force_retry),
    {
        let existing = self.get_task_state(id);
        self.create_task(id, id);
        let go = should_dispatch(existing, force_retry);
        if go {
            self.update_task_state(id, TaskState::InProgress, None, None);
        }
        go
    }

    /// Records the outcome of unit `id`.
    pub fn finish_unit(&mut self, id: &String, outcome: UnitOutcome)
        requires
            old(self).wf(),
        ensures
            final(self).wf(),
            is_terminal(outcome_fields(outcome).0),
            final(self).view_rows() == updated(
                old(self).view_rows(),
                id@,
                outcome_fields(outcome).0,
                outcome_fields(outcome).1,
                outcome_fields(outcome).2,
            ),
    {
        let rec = record_outcome(outcome);
        self.update_task_state(id, rec.state, rec.code, rec.error);
    }
}

fn clone_text(o: &Option<String>) -> (r: Option<String>)
    ensures
        opt_view(r) == opt_view(*o),
{
    match o {
        Some(t) => Some(t.clone()),
        None => None,
    }
}

proof fn lemma_row_index(rows: Seq<RowView>, id: Seq<char>)
    ensures
        row_index(rows, id) matches Some(i) ==> 0 <= i < rows.len() && rows[i].0 == id,
        row_index(rows, id) is None ==> rows_with(rows, id) == 0,
        row_index(rows, id) is None ==> forall|i: int| 0 <= i < rows.len() ==> rows[i].0 != id,
    decreases rows.len(),
{
    if rows.len() > 0 {
        lemma_row_index(rows.drop_last(), id);
        if row_index(rows, id) is None {
            assert forall|i: int| 0 <= i < rows.len() implies rows[i].0 != id by {
                if i < rows.len() - 1 {
                    assert(rows.drop_last()[i] == rows[i]);
                }
            }
        }
    }
}

proof fn lemma_rows_with_unique(rows: Seq<RowView>, id: Seq<char>)
    requires
        keys_unique(rows),
    ensures
        rows_with(rows, id) <= 1,
    decreases rows.len(),
{
    if rows.len() > 0 {
        let p = rows.drop_last();
        assert(keys_unique(p));
        lemma_rows_with_unique(p, id);
        if rows.last().0 == id {
            lemma_row_index(p, id);
            if row_index(p, id) is Some {
                let i = row_index(p, id).unwrap();
                assert(rows[i].0 == id);
                assert(rows[rows.len() - 1].0 == id);
            }
        }
    }
}

/// Creating the same task twice leaves the rows of creating it once, and
/// after it exactly one row has its key.
pub proof fn lemma_create_idempotent(rows: Seq<RowView>, id: Seq<char>, unit: Seq<char>)
    requires
        keys_unique(rows),
    ensures
        created(created(rows, id, unit), id, unit) == created(rows, id, unit),
        rows_with(created(rows, id, unit), id) == 1,
{
    lemma_row_index(rows, id);
    lemma_rows_with_unique(rows, id);
    let c = rows.push((id, unit, TaskState::Pending, None, None));
    if row_index(rows, id) is None {
        assert(c.drop_last() == rows);
        assert(row_index(c, id) == Some(rows.len() as int));
    } else {
        lemma_rows_with_positive(rows, id);
    }
}

proof fn lemma_rows_with_positive(rows: Seq<RowView>, id: Seq<char>)
    requires
        row_index(rows, id) is Some,
    ensures
        rows_with(rows, id) >= 1,
    decreases rows.len(),
{
    if rows.len() > 0 && rows.last().0 != id {
        lemma_rows_with_positive(rows.drop_last(), id);
    }
}

/// A later run without forced retry leaves a task that reached a terminal
/// state as it was: its state, code and error log are kept.
pub proof fn lemma_terminal_kept(rows: Seq<RowView>, id: Seq<char>)
    requires
        row_index(rows, id) is Some,
        is_terminal(rows[row_index(rows, id).unwrap()].2),
    ensures
        begun(rows, id, false) == rows,
{
}

/// No update loses what a finished task stored: after any update of a
/// finished row, the row still holds a code and an error log wherever it
/// held one before.
pub proof fn lemma_finished_data_kept(
    rows: Seq<RowView>,
    id: Seq<char>,
    state: TaskState,
    code: Option<Seq<char>>,
    error: Option<Seq<char>>,
)
    requires
        row_index(rows, id) is Some,
        is_terminal(rows[row_index(rows, id).unwrap()].2),
    ensures
        ({
            let i = row_index(rows, id).unwrap();
            let after = updated(rows, id, state, code, error)[i];
            &&& rows[i].3 is Some ==> after.3 is Some
            &&& rows[i].4 is Some ==> after.4 is Some
        }),
{
    lemma_row_index(rows, id);
}

} // verus!
