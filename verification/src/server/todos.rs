//! Tasks: handing them out, listing them and closing them.
use crate::clock;
use crate::clock::Timestamp;
use crate::outside;
use crate::server;
use crate::server::messages;
use crate::server::messages::{BroadcastMsg, Message, Messages};
use crate::server::Refusal;
use crate::sorting;
use crate::text;
use vstd::prelude::*;

verus! {

/// A task to be handed out.
pub struct TodoCreate {
    pub assigned_by: String,
    pub instance: String,
    pub description: String,
}

/// A task as it is shown.
pub struct Todo {
    pub id: String,
    pub hash: String,
    pub instance: String,
    pub assigned_by: String,
    pub description: String,
    pub created_at: Timestamp,
    pub completed_at: Option<Timestamp>,
}

/// A row of the table.
pub struct TodoRow {
    pub todo: Todo,
    pub team_id: Option<String>,
}

/// The model of a [`Todo`].
#[verifier::ext_equal]
pub struct TodoModel {
    pub id: Seq<char>,
    pub hash: Seq<char>,
    pub instance: Seq<char>,
    pub assigned_by: Seq<char>,
    pub description: Seq<char>,
    pub created_at: Timestamp,
    pub completed_at: Option<Timestamp>,
}

/// The model of a [`TodoRow`].
#[verifier::ext_equal]
pub struct TodoRowModel {
    pub todo: TodoModel,
    pub team: Option<Seq<char>>,
}

impl View for Todo {
    type V = TodoModel;

    open spec fn view(&self) -> TodoModel {
        TodoModel {
            id: self.id@,
            hash: self.hash@,
            instance: self.instance@,
            assigned_by: self.assigned_by@,
            description: self.description@,
            created_at: self.created_at,
            completed_at: self.completed_at,
        }
    }
}

impl View for TodoRow {
    type V = TodoRowModel;

    open spec fn view(&self) -> TodoRowModel {
        TodoRowModel { todo: self.todo@, team: text::opt_text(self.team_id) }
    }
}

/// The models of a list of tasks.
pub open spec fn todo_models(v: Seq<Todo>) -> Seq<TodoModel> {
    Seq::new(v.len(), |i: int| v[i]@)
}

/// The models of the rows.
pub open spec fn todo_row_models(v: Seq<TodoRow>) -> Seq<TodoRowModel> {
    Seq::new(v.len(), |i: int| v[i]@)
}

fn copy_todo(t: &Todo) -> (r: Todo)
    ensures
        r@ == t@,
{
    let r = Todo {
        id: t.id.clone(),
        hash: t.hash.clone(),
        instance: t.instance.clone(),
        assigned_by: t.assigned_by.clone(),
        description: t.description.clone(),
        created_at: t.created_at,
        completed_at: t.completed_at,
    };
    assert(r@ =~= t@);
    r
}

/// A task that the server accepts.
pub open spec fn acceptable(t: TodoCreate) -> bool {
    &&& server::instance_name(t.assigned_by@)
    &&& server::instance_name(t.instance@)
    &&& t.description@.len() > 0
    &&& text::byte_len(t.description@) <= server::MAX_TODO_DESC_LEN
}

/// The row of a new task.
pub open spec fn new_todo(t: TodoCreate, now: Timestamp, id: Seq<char>) -> TodoModel {
    TodoModel {
        id,
        hash: server::field_hash(t.instance@, t.assigned_by@, t.description@, now.text()),
        instance: t.instance@,
        assigned_by: t.assigned_by@,
        description: t.description@,
        created_at: now,
        completed_at: None,
    }
}

/// What the worker is told who gets a task: a short word, whatever the task. The text of the task
/// is in the queue.
pub const NOTICE: &'static str = "\u{1f4cb} New task assigned: check your todo list";

/// The open tasks of an identity, in the order of the rows.
pub open spec fn open_todos(rows: Seq<TodoRowModel>, who: Seq<char>, space: Seq<char>) -> Seq<
    TodoModel,
>
    decreases rows.len(),
{
    if rows.len() == 0 {
        Seq::empty()
    } else {
        let r = open_todos(rows.drop_last(), who, space);
        let x = rows.last();
        if x.todo.instance == who && x.todo.completed_at is None && server::space_of(x.team)
            == space {
            r.push(x.todo)
        } else {
            r
        }
    }
}

/// When the tasks were created, as numbers.
pub open spec fn ages(v: Seq<TodoModel>) -> Seq<int> {
    Seq::new(v.len(), |i: int| v[i].created_at.total())
}

/// The tasks with the oldest first.
pub open spec fn oldest_first(v: Seq<TodoModel>) -> Seq<TodoModel> {
    sorting::arranged(v, ages(v), false)
}

// ── Hash prefixes ───────────────────────────────────────────────────────────
/// A hexadecimal digit.
pub open spec fn hex_char(c: char) -> bool {
    ('0' <= c <= '9') || ('a' <= c <= 'f') || ('A' <= c <= 'F')
}

/// Every character is a hexadecimal digit.
pub open spec fn hex_chars(s: Seq<char>) -> bool {
    forall|i: int| 0 <= i < s.len() ==> hex_char(#[trigger] s[i])
}

/// Whether every character is a hexadecimal digit.
pub fn all_hex(s: &str) -> (r: bool)
    ensures
        r == hex_chars(s@),
{
    let v = text::chars_of(s);
    let mut i: usize = 0;
    while i < v.len()
        invariant
            i <= v@.len(),
            v@ == s@,
            forall|k: int| 0 <= k < i ==> hex_char(#[trigger] v@[k]),
        decreases v@.len() - i,
    {
        let c = v[i];
        if !(('0' <= c && c <= '9') || ('a' <= c && c <= 'f') || ('A' <= c && c <= 'F')) {
            assert(!hex_char(s@[i as int]));
            return false;
        }
        i += 1;
    }
    true
}

/// `s` begins with `p`, capitals and small letters counting as the same.
pub open spec fn begins_with(s: Seq<char>, p: Seq<char>) -> bool {
    &&& p.len() <= s.len()
    &&& forall|i: int|
        0 <= i < p.len() ==> outside::ascii_lower(#[trigger] s[i]) == outside::ascii_lower(p[i])
}

fn lower(c: char) -> (r: char)
    ensures
        r == outside::ascii_lower(c),
{
    match c {
        'A' => 'a',
        'B' => 'b',
        'C' => 'c',
        'D' => 'd',
        'E' => 'e',
        'F' => 'f',
        'G' => 'g',
        'H' => 'h',
        'I' => 'i',
        'J' => 'j',
        'K' => 'k',
        'L' => 'l',
        'M' => 'm',
        'N' => 'n',
        'O' => 'o',
        'P' => 'p',
        'Q' => 'q',
        'R' => 'r',
        'S' => 's',
        'T' => 't',
        'U' => 'u',
        'V' => 'v',
        'W' => 'w',
        'X' => 'x',
        'Y' => 'y',
        'Z' => 'z',
        _ => c,
    }
}

/// Whether `s` begins with `p`, capitals and small letters counting as the same.
pub fn has_prefix(s: &str, p: &str) -> (r: bool)
    ensures
        r == begins_with(s@, p@),
{
    let v = text::chars_of(s);
    let w = text::chars_of(p);
    if w.len() > v.len() {
        return false;
    }
    let mut i: usize = 0;
    while i < w.len()
        invariant
            i <= w@.len() <= v@.len(),
            v@ == s@,
            w@ == p@,
            forall|k: int|
                0 <= k < i ==> outside::ascii_lower(#[trigger] v@[k]) == outside::ascii_lower(
                    w@[k],
                ),
        decreases w@.len() - i,
    {
        if lower(v[i]) != lower(w[i]) {
            assert(outside::ascii_lower(s@[i as int]) != outside::ascii_lower(p@[i as int]));
            return false;
        }
        i += 1;
    }
    true
}

// ── The table ───────────────────────────────────────────────────────────────
/// The table of tasks.
pub struct Todos {
    pub rows: Vec<TodoRow>,
}

impl View for Todos {
    type V = Seq<TodoRowModel>;

    open spec fn view(&self) -> Seq<TodoRowModel> {
        todo_row_models(self.rows@)
    }
}

/// The row is a task of the namespace whose hash begins with `prefix`.
pub open spec fn named(r: TodoRowModel, prefix: Seq<char>, space: Seq<char>) -> bool {
    begins_with(r.todo.hash, prefix) && server::space_of(r.team) == space
}

/// A row behind closing the tasks that `prefix` names.
pub open spec fn closed(
    r: TodoRowModel,
    prefix: Seq<char>,
    space: Seq<char>,
    now: Timestamp,
) -> TodoRowModel {
    if named(r, prefix, space) && r.todo.completed_at is None {
        TodoRowModel { todo: TodoModel { completed_at: Some(now), ..r.todo }, ..r }
    } else {
        r
    }
}

/// The table behind closing the tasks that `prefix` names.
pub open spec fn all_closed(
    rows: Seq<TodoRowModel>,
    prefix: Seq<char>,
    space: Seq<char>,
    now: Timestamp,
) -> Seq<TodoRowModel> {
    Seq::new(rows.len(), |i: int| closed(rows[i], prefix, space, now))
}

/// There is an open task that `prefix` names.
pub open spec fn any_open(rows: Seq<TodoRowModel>, prefix: Seq<char>, space: Seq<char>) -> bool {
    exists|i: int|
        0 <= i < rows.len() && named(#[trigger] rows[i], prefix, space)
            && rows[i].todo.completed_at is None
}

/// There is a task that `prefix` names.
pub open spec fn any_named(rows: Seq<TodoRowModel>, prefix: Seq<char>, space: Seq<char>) -> bool {
    exists|i: int| 0 <= i < rows.len() && named(#[trigger] rows[i], prefix, space)
}

/// What closing the tasks that `prefix` names comes to.
pub open spec fn closing(rows: Seq<TodoRowModel>, prefix: Seq<char>, space: Seq<char>) -> Result<
    (),
    Refusal,
> {
    if !(4 <= text::byte_len(prefix) <= 40) || !hex_chars(prefix) {
        Err(Refusal::BadRequest)
    } else if any_open(rows, prefix, space) {
        Ok(())
    } else if any_named(rows, prefix, space) {
        Err(Refusal::Conflict)
    } else {
        Err(Refusal::NotFound)
    }
}

impl Todos {
    /// A table without rows.
    pub fn new() -> (t: Todos)
        ensures
            t@ == Seq::<TodoRowModel>::empty(),
    {
        let t = Todos { rows: Vec::new() };
        assert(t@ =~= Seq::<TodoRowModel>::empty());
        t
    }

    /// Hands out a task under the identifier `id`. The worker who gets it is told by a message,
    /// which is stored under `notice_id` and handed back for those who listen.
    pub fn assign(
        &mut self,
        table: &mut Messages,
        team: &Option<String>,
        payload: &TodoCreate,
        now: Timestamp,
        id: &str,
        notice_now: Timestamp,
        notice_id: &str,
    ) -> (r: Result<(Todo, BroadcastMsg), Refusal>)
        requires
            now.valid(),
            notice_now.valid(),
        ensures
            r is Ok == acceptable(*payload),
            r matches Err(e) ==> e == Refusal::BadRequest && final(self)@ == old(self)@
                && final(table)@ == old(table)@,
            r matches Ok(p) ==> {
                let owner = text::opt_text(*team);
                let todo = new_todo(*payload, now, id@);
                let row = messages::new_row(
                    payload.assigned_by@,
                    payload.instance@,
                    NOTICE@,
                    Seq::empty(),
                    notice_now,
                    notice_id@,
                    owner,
                );
                &&& final(self)@ == old(self)@.push(TodoRowModel { todo, team: owner })
                &&& final(table)@ == old(table)@.push(row)
                &&& p.0@ == todo
                &&& text::opt_text(p.1.team_id) == owner
                &&& p.1.message@ == messages::message_of(row)
            },
    {
        if !server::is_instance_name(payload.assigned_by.as_str()) || !server::is_instance_name(
            payload.instance.as_str(),
        ) || payload.description.as_str().is_empty() || text::bytes_in(payload.description.as_str())
            > server::MAX_TODO_DESC_LEN {
            return Err(Refusal::BadRequest);
        }
        let stamp = now.to_rfc3339();
        let hash = server::hash_fields(
            payload.instance.as_str(),
            payload.assigned_by.as_str(),
            payload.description.as_str(),
            stamp.as_str(),
        );
        let todo = Todo {
            id: id.to_owned(),
            hash,
            instance: payload.instance.clone(),
            assigned_by: payload.assigned_by.clone(),
            description: payload.description.clone(),
            created_at: now,
            completed_at: None,
        };
        assert(todo@ =~= new_todo(*payload, now, id@));
        let ghost before = self.rows@;
        let row = TodoRow { todo: copy_todo(&todo), team_id: text::copy_opt(team) };
        let ghost m = row@;
        self.rows.push(row);
        assert(self@ =~= todo_row_models(before).push(m));
        let none: Vec<String> = Vec::new();
        assert(text::texts(none@) =~= Seq::<Seq<char>>::empty());
        let message = table.insert(
            payload.assigned_by.as_str(),
            payload.instance.as_str(),
            NOTICE,
            &none,
            notice_now,
            notice_id,
            team,
        );
        proof {
            let owner = text::opt_text(*team);
            let row = messages::new_row(
                payload.assigned_by@,
                payload.instance@,
                NOTICE@,
                Seq::empty(),
                notice_now,
                notice_id@,
                owner,
            );
            assert(row.refs.len() == 0);
            assert(messages::message_of(row).refs =~= Seq::<Seq<char>>::empty());
            assert(message@ =~= messages::message_of(row));
        }
        Ok((todo, BroadcastMsg { team_id: text::copy_opt(team), message }))
    }

    /// Hands out a task under a new random identifier.
    pub fn create_todo(
        &mut self,
        table: &mut Messages,
        team: &Option<String>,
        payload: &TodoCreate,
        now: Timestamp,
        notice_now: Timestamp,
    ) -> (r: Result<(Todo, BroadcastMsg), Refusal>)
        requires
            now.valid(),
            notice_now.valid(),
        ensures
            r is Ok == acceptable(*payload),
            r matches Err(e) ==> e == Refusal::BadRequest && final(self)@ == old(self)@
                && final(table)@ == old(table)@,
            r matches Ok(p) ==> {
                let owner = text::opt_text(*team);
                let todo = new_todo(*payload, now, p.0.id@);
                let row = messages::new_row(
                    payload.assigned_by@,
                    payload.instance@,
                    NOTICE@,
                    Seq::empty(),
                    notice_now,
                    p.1.message.id@,
                    owner,
                );
                &&& server::drawn_id(p.0.id@)
                &&& server::drawn_id(p.1.message.id@)
                &&& final(self)@ == old(self)@.push(TodoRowModel { todo, team: owner })
                &&& final(table)@ == old(table)@.push(row)
                &&& p.0@ == todo
                &&& text::opt_text(p.1.team_id) == owner
                &&& p.1.message@ == messages::message_of(row)
            },
    {
        let id = server::new_id();
        let notice_id = server::new_id();
        self.assign(table, team, payload, now, id.as_str(), notice_now, notice_id.as_str())
    }

    /// The open tasks of an identity, the oldest first.
    pub fn list_todos(&self, team: &Option<String>, who: &str) -> (r: Result<Vec<Todo>, Refusal>)
        ensures
            r is Ok == server::instance_name(who@),
            r matches Err(e) ==> e == Refusal::BadRequest,
            r matches Ok(v) ==> todo_models(v@) == oldest_first(
                open_todos(self@, who@, server::space_of(text::opt_text(*team))),
            ),
    {
        if !server::is_instance_name(who) {
            return Err(Refusal::BadRequest);
        }
        let ghost rows = self@;
        let ghost space = server::space_of(text::opt_text(*team));
        let mut found: Vec<Todo> = Vec::new();
        let mut keys: Vec<i128> = Vec::new();
        let mut i: usize = 0;
        assert(todo_models(found@) =~= open_todos(rows.take(0), who@, space));
        while i < self.rows.len()
            invariant
                i <= self.rows@.len(),
                rows == self@,
                space == server::space_of(text::opt_text(*team)),
                todo_models(found@) == open_todos(rows.take(i as int), who@, space),
                keys@.len() == found@.len(),
                forall|k: int|
                    0 <= k < keys@.len() ==> #[trigger] keys@[k] == found@[k].created_at.total(),
            decreases self.rows@.len() - i,
        {
            assert(rows.take(i + 1).drop_last() =~= rows.take(i as int));
            let x = &self.rows[i];
            assert(rows.take(i + 1).last() == x@);
            if text::same(x.todo.instance.as_str(), who) && x.todo.completed_at.is_none()
                && server::same_space(&x.team_id, team) {
                let ghost before = found@;
                found.push(copy_todo(&x.todo));
                keys.push(x.todo.created_at.nanoseconds());
                assert(found@.last()@.created_at == x.todo.created_at);
                assert(todo_models(found@) =~= todo_models(before).push(x@.todo));
            }
            i += 1;
        }
        assert(rows.take(i as int) =~= rows);
        let ghost ms = todo_models(found@);
        assert(sorting::key_model(keys@) =~= ages(ms));
        let order = sorting::order_by(&keys, false);
        let ghost o = sorting::ordering(ages(ms), ms.len(), false);
        let mut r: Vec<Todo> = Vec::new();
        let mut j: usize = 0;
        while j < order.len()
            invariant
                j <= order@.len(),
                ms == todo_models(found@),
                o == sorting::index_model(order@),
                forall|k: int| 0 <= k < order@.len() ==> #[trigger] order@[k] < found@.len(),
                r@.len() == j,
                forall|k: int| 0 <= k < j ==> (#[trigger] r@[k])@ == ms[o[k]],
            decreases order@.len() - j,
        {
            assert(o[j as int] == order@[j as int]);
            r.push(copy_todo(&found[order[j]]));
            j += 1;
        }
        assert(todo_models(r@) =~= oldest_first(ms));
        Ok(r)
    }

    /// Closes the open tasks of the namespace whose hash begins with `prefix`. A task that is
    /// closed already, and one of another namespace, are told apart from success, and the latter
    /// not from a task that does not exist.
    pub fn complete_todo(&mut self, team: &Option<String>, prefix: &str, now: Timestamp) -> (r: Result<
        (),
        Refusal,
    >)
        ensures
            r == closing(old(self)@, prefix@, server::space_of(text::opt_text(*team))),
            final(self)@ == (if r is Ok {
                all_closed(
                    old(self)@,
                    prefix@,
                    server::space_of(text::opt_text(*team)),
                    now,
                )
            } else {
                old(self)@
            }),
    {
        let n = text::bytes_in(prefix);
        if n < 4 || n > 40 || !all_hex(prefix) {
            return Err(Refusal::BadRequest);
        }
        let ghost before = self.rows@;
        let ghost rows = self@;
        let ghost space = server::space_of(text::opt_text(*team));
        let ghost want = all_closed(rows, prefix@, space, now);
        let mut any = false;
        let mut open = false;
        let mut i: usize = 0;
        while i < self.rows.len()
            invariant
                i <= self.rows@.len(),
                self.rows@.len() == before.len(),
                rows == todo_row_models(before),
                space == server::space_of(text::opt_text(*team)),
                want == all_closed(rows, prefix@, space, now),
                any ==> any_named(rows, prefix@, space),
                !any ==> forall|k: int|
                    0 <= k < i ==> !named(#[trigger] rows[k], prefix@, space),
                open ==> any_open(rows, prefix@, space),
                !open ==> forall|k: int|
                    0 <= k < i ==> !(named(#[trigger] rows[k], prefix@, space)
                        && rows[k].todo.completed_at is None),
                !open ==> forall|k: int| 0 <= k < i ==> #[trigger] self.rows@[k] == before[k],
                forall|k: int| 0 <= k < i ==> (#[trigger] self.rows@[k])@ == want[k],
                forall|k: int| i <= k < before.len() ==> #[trigger] self.rows@[k] == before[k],
            decreases self.rows@.len() - i,
        {
            assert(self.rows@[i as int] == before[i as int]);
            assert(rows[i as int] == before[i as int]@);
            if has_prefix(self.rows[i].todo.hash.as_str(), prefix) && server::same_space(
                &self.rows[i].team_id,
                team,
            ) {
                assert(named(rows[i as int], prefix@, space));
                any = true;
                if self.rows[i].todo.completed_at.is_none() {
                    open = true;
                    self.rows[i].todo.completed_at = Some(now);
                    assert(self.rows@[i as int]@.todo =~= (TodoModel {
                        completed_at: Some(now),
                        ..rows[i as int].todo
                    }));
                    assert(self.rows@[i as int]@ =~= want[i as int]);
                }
            }
            i += 1;
        }
        if open {
            assert(self@ =~= want);
            Ok(())
        } else {
            assert(self@ =~= rows);
            if any {
                Err(Refusal::Conflict)
            } else {
                Err(Refusal::NotFound)
            }
        }
    }
}

// ── Stored rows ─────────────────────────────────────────────────────────────
/// A row as it is stored: times are texts.
pub struct StoredTodo {
    pub id: String,
    pub hash: String,
    pub instance: String,
    pub assigned_by: String,
    pub description: String,
    pub created_at: String,
    pub completed_at: Option<String>,
    pub team_id: Option<String>,
}

/// The row that a stored one stands for; nothing where its time cannot be read.
pub open spec fn todo_from(s: StoredTodo) -> Option<TodoRowModel> {
    match clock::time_of(s.created_at@) {
        Some(t) => Some(
            TodoRowModel {
                todo: TodoModel {
                    id: s.id@,
                    hash: s.hash@,
                    instance: s.instance@,
                    assigned_by: s.assigned_by@,
                    description: s.description@,
                    created_at: t,
                    completed_at: match text::opt_text(s.completed_at) {
                        Some(c) => clock::time_of(c),
                        None => None,
                    },
                },
                team: text::opt_text(s.team_id),
            },
        ),
        None => None,
    }
}

/// The rows that stored ones stand for, without those whose time cannot be read.
pub open spec fn todos_from(stored: Seq<StoredTodo>) -> Seq<TodoRowModel>
    decreases stored.len(),
{
    if stored.len() == 0 {
        Seq::empty()
    } else {
        let r = todos_from(stored.drop_last());
        match todo_from(stored.last()) {
            Some(row) => r.push(row),
            None => r,
        }
    }
}

/// Reads stored rows.
pub fn parse_todo_rows(stored: &Vec<StoredTodo>) -> (r: Vec<TodoRow>)
    ensures
        todo_row_models(r@) == todos_from(stored@),
{
    let mut r: Vec<TodoRow> = Vec::new();
    let mut i: usize = 0;
    assert(todo_row_models(r@) =~= todos_from(stored@.take(0)));
    while i < stored.len()
        invariant
            i <= stored@.len(),
            todo_row_models(r@) == todos_from(stored@.take(i as int)),
        decreases stored@.len() - i,
    {
        assert(stored@.take(i + 1).drop_last() =~= stored@.take(i as int));
        let s = &stored[i];
        if let Some(t) = clock::parse_time(s.created_at.as_str()) {
            let completed_at = match &s.completed_at {
                Some(x) => clock::parse_time(x.as_str()),
                None => None,
            };
            let row = TodoRow {
                todo: Todo {
                    id: s.id.clone(),
                    hash: s.hash.clone(),
                    instance: s.instance.clone(),
                    assigned_by: s.assigned_by.clone(),
                    description: s.description.clone(),
                    created_at: t,
                    completed_at,
                },
                team_id: text::copy_opt(&s.team_id),
            };
            let ghost before = r@;
            let ghost m = row@;
            r.push(row);
            assert(m.todo =~= (todo_from(*s)->0).todo);
            assert(m =~= todo_from(*s)->0);
            assert(todo_row_models(r@) =~= todo_row_models(before).push(m));
        }
        i += 1;
    }
    assert(stored@.take(i as int) =~= stored@);
    r
}

// ── Laws ────────────────────────────────────────────────────────────────────
/// A task that was closed is not closed again: asking a second time is a conflict.
pub proof fn tasks_close_once(
    rows: Seq<TodoRowModel>,
    prefix: Seq<char>,
    space: Seq<char>,
    now: Timestamp,
)
    requires
        closing(rows, prefix, space) is Ok,
    ensures
        closing(all_closed(rows, prefix, space, now), prefix, space) == Err::<(), Refusal>(
            Refusal::Conflict,
        ),
{
    let c = all_closed(rows, prefix, space, now);
    let i = choose|i: int|
        0 <= i < rows.len() && named(#[trigger] rows[i], prefix, space)
            && rows[i].todo.completed_at is None;
    assert(named(c[i], prefix, space));
    assert(!any_open(c, prefix, space)) by {
        if any_open(c, prefix, space) {
            let j = choose|j: int|
                0 <= j < c.len() && named(#[trigger] c[j], prefix, space)
                    && c[j].todo.completed_at is None;
            assert(c[j] == closed(rows[j], prefix, space, now));
        }
    }
}

/// The time at which a task was closed never changes.
pub proof fn completion_times_stay(
    rows: Seq<TodoRowModel>,
    prefix: Seq<char>,
    space: Seq<char>,
    now: Timestamp,
    i: int,
)
    requires
        0 <= i < rows.len(),
        rows[i].todo.completed_at is Some,
    ensures
        all_closed(rows, prefix, space, now)[i] == rows[i],
{
}

/// A team cannot close, see or even detect the tasks of another: they do not count for it.
pub proof fn tasks_are_isolated(
    rows: Seq<TodoRowModel>,
    other: TodoRowModel,
    prefix: Seq<char>,
    who: Seq<char>,
    space: Seq<char>,
)
    requires
        server::space_of(other.team) != space,
    ensures
        closing(rows.push(other), prefix, space) == closing(rows, prefix, space),
        open_todos(rows.push(other), who, space) == open_todos(rows, who, space),
{
    let all = rows.push(other);
    assert(all.drop_last() =~= rows);
    if any_open(rows, prefix, space) {
        let i = choose|i: int|
            0 <= i < rows.len() && named(#[trigger] rows[i], prefix, space)
                && rows[i].todo.completed_at is None;
        assert(all[i] == rows[i]);
    }
    if any_open(all, prefix, space) {
        let i = choose|i: int|
            0 <= i < all.len() && named(#[trigger] all[i], prefix, space)
                && all[i].todo.completed_at is None;
        assert(rows[i] == all[i]);
    }
    if any_named(rows, prefix, space) {
        let i = choose|i: int| 0 <= i < rows.len() && named(#[trigger] rows[i], prefix, space);
        assert(all[i] == rows[i]);
    }
    if any_named(all, prefix, space) {
        let i = choose|i: int| 0 <= i < all.len() && named(#[trigger] all[i], prefix, space);
        assert(rows[i] == all[i]);
    }
}

/// A task that was handed out is listed for the worker who got it.
pub proof fn assigned_tasks_are_listed(rows: Seq<TodoRowModel>, row: TodoRowModel)
    requires
        row.todo.completed_at is None,
    ensures
        oldest_first(
            open_todos(rows.push(row), row.todo.instance, server::space_of(row.team)),
        ).contains(row.todo),
{
    let all = rows.push(row);
    let s = open_todos(all, row.todo.instance, server::space_of(row.team));
    assert(all.drop_last() =~= rows);
    assert(s[s.len() - 1] == row.todo);
    assert(s.contains(row.todo));
    sorting::arranged_keeps(s, ages(s), false, row.todo);
}

/// A task can be closed by the front of its own hash.
pub proof fn tasks_answer_to_their_hash(r: TodoRowModel, n: int)
    requires
        0 <= n <= r.todo.hash.len(),
    ensures
        named(r, r.todo.hash.take(n), server::space_of(r.team)),
{
}

/// Every row is listed or not by itself: where it is the task of the one who asks, not completed, and
/// of the namespace. The order stays.
pub proof fn each_task_is_listed_alone(
    a: Seq<TodoRowModel>,
    b: Seq<TodoRowModel>,
    x: TodoRowModel,
    who: Seq<char>,
    space: Seq<char>,
)
    ensures
        open_todos(a + b, who, space) == open_todos(a, who, space) + open_todos(b, who, space),
        open_todos(seq![x], who, space) == (if x.todo.instance == who && x.todo.completed_at is None && server::space_of(x.team)
            == space {
            seq![x.todo]
        } else {
            Seq::empty()
        }),
    decreases b.len(),
{
    let one = seq![x];
    assert(one.drop_last() =~= Seq::<TodoRowModel>::empty());
    assert(open_todos(one.drop_last(), who, space).len() == 0);
    assert(open_todos(one, who, space) =~= (if x.todo.instance == who && x.todo.completed_at is None && server::space_of(x.team)
            == space {
            seq![x.todo]
        } else {
            Seq::empty()
        }));
    if b.len() == 0 {
        assert(a + b =~= a);
        assert(open_todos(a, who, space) + open_todos(b, who, space) =~= open_todos(a, who, space));
    } else {
        each_task_is_listed_alone(a, b.drop_last(), x, who, space);
        assert((a + b).drop_last() =~= a + b.drop_last());
        assert((a + b).last() == b.last());
        assert(open_todos(a + b, who, space) =~= open_todos(a, who, space) + open_todos(b, who, space));
    }
}

/// The listing of an identity holds a task exactly where some row has it: it is the task of that
/// identity, it was not completed, and it is of the namespace. It holds as many tasks as there are
/// such rows.
pub proof fn listings_are_complete(
    rows: Seq<TodoRowModel>,
    who: Seq<char>,
    space: Seq<char>,
    t: TodoModel,
)
    ensures
        oldest_first(open_todos(rows, who, space)).contains(t) <==> exists|i: int|
            0 <= i < rows.len() && (#[trigger] rows[i]).todo == t && rows[i].todo.instance == who
                && rows[i].todo.completed_at is None && server::space_of(rows[i].team) == space,
        oldest_first(open_todos(rows, who, space)).len() == rows.filter(
            |r: TodoRowModel|
                r.todo.instance == who && r.todo.completed_at is None && server::space_of(r.team)
                    == space,
        ).len(),
{
    let s = open_todos(rows, who, space);
    sorting::arranged_keeps(s, ages(s), false, t);
    open_todos_meaning(rows, who, space, t);
}

proof fn open_todos_meaning(rows: Seq<TodoRowModel>, who: Seq<char>, space: Seq<char>, t: TodoModel)
    ensures
        open_todos(rows, who, space).contains(t) <==> exists|i: int|
            0 <= i < rows.len() && (#[trigger] rows[i]).todo == t && rows[i].todo.instance == who
                && rows[i].todo.completed_at is None && server::space_of(rows[i].team) == space,
        open_todos(rows, who, space).len() == rows.filter(
            |r: TodoRowModel|
                r.todo.instance == who && r.todo.completed_at is None && server::space_of(r.team)
                    == space,
        ).len(),
    decreases rows.len(),
{
    reveal(Seq::filter);
    let keep = |r: TodoRowModel|
        r.todo.instance == who && r.todo.completed_at is None && server::space_of(r.team) == space;
    if rows.len() > 0 {
        let init = rows.drop_last();
        let a = open_todos(init, who, space);
        let all = open_todos(rows, who, space);
        open_todos_meaning(init, who, space, t);
        let n = rows.len() - 1;
        assert(rows[n] == rows.last());
        if all.contains(t) {
            let k = choose|k: int| 0 <= k < all.len() && all[k] == t;
            if k < a.len() {
                assert(a[k] == t);
                let i = choose|i: int|
                    0 <= i < init.len() && (#[trigger] init[i]).todo == t && init[i].todo.instance
                        == who && init[i].todo.completed_at is None && server::space_of(
                        init[i].team,
                    ) == space;
                assert(rows[i] == init[i]);
            }
        }
        if exists|i: int|
            0 <= i < rows.len() && (#[trigger] rows[i]).todo == t && rows[i].todo.instance == who
                && rows[i].todo.completed_at is None && server::space_of(rows[i].team) == space {
            let i = choose|i: int|
                0 <= i < rows.len() && (#[trigger] rows[i]).todo == t && rows[i].todo.instance
                    == who && rows[i].todo.completed_at is None && server::space_of(rows[i].team)
                    == space;
            if i < n {
                assert(init[i] == rows[i]);
                let k = choose|k: int| 0 <= k < a.len() && a[k] == t;
                assert(all[k] == t);
            } else {
                assert(all[a.len() as int] == t);
            }
        }
        assert(rows.filter(keep) == if keep(rows.last()) {
            init.filter(keep).push(rows.last())
        } else {
            init.filter(keep)
        });
    }
}

/// A listing puts older tasks first.
pub proof fn older_tasks_come_first(v: Seq<TodoModel>, i: int, j: int)
    requires
        0 <= i < j < v.len(),
    ensures
        oldest_first(v)[i].created_at.total() <= oldest_first(v)[j].created_at.total(),
{
    sorting::arranged_is_sorted(v, ages(v), false, i, j);
}

/// A task is closed under the beginning of its hash exactly where it is of the namespace and was
/// open; it then has the time of the call. Nothing else about any row changes.
pub proof fn closing_is_exact(
    rows: Seq<TodoRowModel>,
    prefix: Seq<char>,
    space: Seq<char>,
    now: Timestamp,
    i: int,
)
    requires
        0 <= i < rows.len(),
    ensures
        all_closed(rows, prefix, space, now).len() == rows.len(),
        ({
            let r = all_closed(rows, prefix, space, now)[i];
            let meant = prefix.len() <= rows[i].todo.hash.len() && (forall|k: int|
                0 <= k < prefix.len() ==> outside::ascii_lower(
                    #[trigger] rows[i].todo.hash[k],
                ) == outside::ascii_lower(prefix[k])) && server::space_of(rows[i].team) == space;
            &&& r.todo.completed_at == (if meant && rows[i].todo.completed_at is None {
                Some(now)
            } else {
                rows[i].todo.completed_at
            })
            &&& r.team == rows[i].team
            &&& r.todo == (TodoModel { completed_at: r.todo.completed_at, ..rows[i].todo })
        }),
{
}

/// What closing answers: a name of other than four to forty hexadecimal digits is no name; otherwise
/// the answer is that something was closed, that it was closed before, or that there is no such task.
pub proof fn closing_answers(rows: Seq<TodoRowModel>, prefix: Seq<char>, space: Seq<char>)
    ensures
        ({
            let c = closing(rows, prefix, space);
            let proper = 4 <= text::byte_len(prefix) <= 40 && forall|i: int|
                0 <= i < prefix.len() ==> ('0' <= #[trigger] prefix[i] <= '9') || ('a' <= prefix[i]
                    <= 'f') || ('A' <= prefix[i] <= 'F');
            let open = exists|i: int|
                0 <= i < rows.len() && begins_with((#[trigger] rows[i]).todo.hash, prefix)
                    && server::space_of(rows[i].team) == space && rows[i].todo.completed_at is None;
            let known = exists|i: int|
                0 <= i < rows.len() && begins_with((#[trigger] rows[i]).todo.hash, prefix)
                    && server::space_of(rows[i].team) == space;
            &&& c == Err::<(), Refusal>(Refusal::BadRequest) <==> !proper
            &&& c is Ok <==> proper && open
            &&& c == Err::<(), Refusal>(Refusal::Conflict) <==> proper && known && !open
            &&& c == Err::<(), Refusal>(Refusal::NotFound) <==> proper && !known
        }),
{
    if exists|i: int|
        0 <= i < rows.len() && begins_with((#[trigger] rows[i]).todo.hash, prefix)
            && server::space_of(rows[i].team) == space {
        let i = choose|i: int|
            0 <= i < rows.len() && begins_with((#[trigger] rows[i]).todo.hash, prefix)
                && server::space_of(rows[i].team) == space;
        assert(named(rows[i], prefix, space));
    }
    if exists|i: int|
        0 <= i < rows.len() && begins_with((#[trigger] rows[i]).todo.hash, prefix)
            && server::space_of(rows[i].team) == space && rows[i].todo.completed_at is None {
        let i = choose|i: int|
            0 <= i < rows.len() && begins_with((#[trigger] rows[i]).todo.hash, prefix)
                && server::space_of(rows[i].team) == space && rows[i].todo.completed_at is None;
        assert(named(rows[i], prefix, space));
    }
    if hex_chars(prefix) {
        assert forall|i: int| 0 <= i < prefix.len() implies ('0' <= #[trigger] prefix[i] <= '9')
            || ('a' <= prefix[i] <= 'f') || ('A' <= prefix[i] <= 'F') by {
            assert(hex_char(prefix[i]));
        }
    }
}

/// Whatever a task was given with, its row keeps: it is open, and its hash is that of who is to do it,
/// who gave it, what is to be done and the time.
pub proof fn tasks_keep_what_was_given(t: TodoCreate, now: Timestamp, id: Seq<char>)
    ensures
        ({
            let r = new_todo(t, now, id);
            &&& r.id == id && r.instance == t.instance@ && r.assigned_by == t.assigned_by@
            &&& r.description == t.description@ && r.created_at == now && r.completed_at is None
            &&& r.hash == server::hex(
                outside::sha1_of(
                    vstd::utf8::encode_utf8(
                        t.instance@ + "|"@ + t.assigned_by@ + "|"@ + t.description@ + "|"@
                            + now.text(),
                    ),
                ),
            )
        }),
{
}

/// A task is accepted exactly where both names are names, and it says something in at most 2048
/// bytes.
pub proof fn acceptance_is_exact(t: TodoCreate)
    ensures
        acceptable(t) <==> {
            &&& 1 <= t.assigned_by@.len() <= 64 && server::name_chars(t.assigned_by@)
            &&& 1 <= t.instance@.len() <= 64 && server::name_chars(t.instance@)
            &&& t.description@.len() > 0
            &&& text::byte_len(t.description@) <= 2048
        },
{
}

/// A closed task leaves the listing of the one who had it, and no other task does.
pub proof fn closed_tasks_leave_the_listing(
    rows: Seq<TodoRowModel>,
    prefix: Seq<char>,
    who: Seq<char>,
    space: Seq<char>,
    now: Timestamp,
    t: TodoModel,
)
    ensures
        oldest_first(open_todos(all_closed(rows, prefix, space, now), who, space)).contains(t)
            <==> oldest_first(open_todos(rows, who, space)).contains(t) && !begins_with(
            t.hash,
            prefix,
        ),
{
    let c = all_closed(rows, prefix, space, now);
    listings_are_complete(rows, who, space, t);
    listings_are_complete(c, who, space, t);
    if oldest_first(open_todos(rows, who, space)).contains(t) && !begins_with(t.hash, prefix) {
        let i = choose|i: int|
            0 <= i < rows.len() && (#[trigger] rows[i]).todo == t && rows[i].todo.instance == who
                && rows[i].todo.completed_at is None && server::space_of(rows[i].team) == space;
        assert(c[i] == rows[i]);
    }
    if oldest_first(open_todos(c, who, space)).contains(t) {
        let i = choose|i: int|
            0 <= i < c.len() && (#[trigger] c[i]).todo == t && c[i].todo.instance == who
                && c[i].todo.completed_at is None && server::space_of(c[i].team) == space;
        assert(c[i] == closed(rows[i], prefix, space, now));
        assert(rows[i].todo == t);
    }
}

/// Every stored task whose time can be read is read as it stands, and the order stays.
pub proof fn each_stored_task_is_read_alone(a: Seq<StoredTodo>, b: Seq<StoredTodo>, x: StoredTodo)
    ensures
        todos_from(a + b) == todos_from(a) + todos_from(b),
        todos_from(seq![x]) == (if clock::time_of(x.created_at@) is Some {
            seq![
                TodoRowModel {
                    todo: TodoModel {
                        id: x.id@,
                        hash: x.hash@,
                        instance: x.instance@,
                        assigned_by: x.assigned_by@,
                        description: x.description@,
                        created_at: clock::time_of(x.created_at@)->0,
                        completed_at: if x.completed_at is Some {
                            clock::time_of(x.completed_at->0@)
                        } else {
                            None
                        },
                    },
                    team: if x.team_id is Some {
                        Some(x.team_id->0@)
                    } else {
                        None
                    },
                },
            ]
        } else {
            Seq::empty()
        }),
    decreases b.len(),
{
    let one = seq![x];
    assert(one.drop_last() =~= Seq::<StoredTodo>::empty());
    assert(todos_from(one.drop_last()).len() == 0);
    assert(todos_from(one) =~= (if clock::time_of(x.created_at@) is Some {
            seq![
                TodoRowModel {
                    todo: TodoModel {
                        id: x.id@,
                        hash: x.hash@,
                        instance: x.instance@,
                        assigned_by: x.assigned_by@,
                        description: x.description@,
                        created_at: clock::time_of(x.created_at@)->0,
                        completed_at: if x.completed_at is Some {
                            clock::time_of(x.completed_at->0@)
                        } else {
                            None
                        },
                    },
                    team: if x.team_id is Some {
                        Some(x.team_id->0@)
                    } else {
                        None
                    },
                },
            ]
        } else {
            Seq::empty()
        }));
    if b.len() == 0 {
        assert(a + b =~= a);
        assert(todos_from(a) + todos_from(b) =~= todos_from(a));
    } else {
        each_stored_task_is_read_alone(a, b.drop_last(), x);
        assert((a + b).drop_last() =~= a + b.drop_last());
        assert((a + b).last() == b.last());
        assert(todos_from(a + b) =~= todos_from(a) + todos_from(b));
    }
}

} // verus!
