//! The worker harness: what an agent process does with the messages it receives and with what
//! its command-line tool prints.
use crate::clock;
use crate::text;
use vstd::prelude::*;

pub mod batch;
pub mod command;
pub mod events;
pub mod output;
pub mod prompt;
pub mod tier;
pub mod turn;

verus! {

/// A message in a worker's queue.
pub struct Message {
    pub sender: String,
    pub content: String,
    pub hash: String,
    pub timestamp: clock::Timestamp,
    pub recipient: String,
}

/// Who sent the messages, in order.
pub open spec fn senders(messages: Seq<Message>) -> Seq<Seq<char>> {
    Seq::new(messages.len(), |i: int| messages[i].sender@)
}

/// What a worker remembers from one invocation to the next.
pub struct WorkerState {
    pub last_task: Option<String>,
    pub pending: Option<String>,
    pub files_touched: Vec<String>,
    /// Shown on the roster: what this worker is doing.
    pub status: Option<String>,
}

/// The model of a [`WorkerState`].
#[verifier::ext_equal]
pub struct StateModel {
    pub last_task: Option<Seq<char>>,
    pub pending: Option<Seq<char>>,
    pub files_touched: Seq<Seq<char>>,
    pub status: Option<Seq<char>>,
}

impl View for WorkerState {
    type V = StateModel;

    open spec fn view(&self) -> StateModel {
        StateModel {
            last_task: text::opt_text(self.last_task),
            pending: text::opt_text(self.pending),
            files_touched: text::texts(self.files_touched@),
            status: text::opt_text(self.status),
        }
    }
}

/// The state that remembers nothing.
pub open spec fn empty_state() -> StateModel {
    StateModel { last_task: None, pending: None, files_touched: Seq::empty(), status: None }
}

impl Default for WorkerState {
    fn default() -> (s: Self)
        ensures
            s@ == empty_state(),
    {
        let s = WorkerState { last_task: None, pending: None, files_touched: Vec::new(), status: None };
        assert(s@ =~= empty_state());
        s
    }
}

/// The newer of two optional values: the incoming one where there is one.
pub open spec fn newer(prior: Option<Seq<char>>, incoming: Option<Seq<char>>) -> Option<Seq<char>> {
    if incoming is Some {
        incoming
    } else {
        prior
    }
}

/// `prior` with each field that `incoming` populates replaced by the incoming one.
pub open spec fn merged(prior: StateModel, incoming: StateModel) -> StateModel {
    StateModel {
        last_task: newer(prior.last_task, incoming.last_task),
        pending: newer(prior.pending, incoming.pending),
        files_touched: if incoming.files_touched.len() > 0 {
            incoming.files_touched
        } else {
            prior.files_touched
        },
        status: newer(prior.status, incoming.status),
    }
}

/// Merges a partial state into the one on disk. Only populated fields replace: `Some` for the
/// optional ones, a list that is not empty for the files.
pub fn merge_state(prior: WorkerState, incoming: &WorkerState) -> (r: WorkerState)
    ensures
        r@ == merged(prior@, incoming@),
{
    let last_task = if incoming.last_task.is_some() {
        text::copy_opt(&incoming.last_task)
    } else {
        prior.last_task
    };
    let pending = if incoming.pending.is_some() {
        text::copy_opt(&incoming.pending)
    } else {
        prior.pending
    };
    let status = if incoming.status.is_some() {
        text::copy_opt(&incoming.status)
    } else {
        prior.status
    };
    let files_touched = if incoming.files_touched.len() > 0 {
        text::copy_list(&incoming.files_touched)
    } else {
        prior.files_touched
    };
    let r = WorkerState { last_task, pending, files_touched, status };
    assert(r@ =~= merged(prior@, incoming@));
    r
}

/// An update that says nothing changes nothing.
pub proof fn empty_update_keeps_state(prior: StateModel)
    ensures
        merged(prior, empty_state()) == prior,
{
    assert(merged(prior, empty_state()) =~= prior);
}

/// No update ever clears a field that holds something.
pub proof fn merge_never_clears(prior: StateModel, incoming: StateModel)
    ensures
        prior.last_task is Some ==> merged(prior, incoming).last_task is Some,
        prior.pending is Some ==> merged(prior, incoming).pending is Some,
        prior.status is Some ==> merged(prior, incoming).status is Some,
        prior.files_touched.len() > 0 ==> merged(prior, incoming).files_touched.len() > 0,
{
}

/// The same update twice is the update once.
pub proof fn merge_is_idempotent(prior: StateModel, incoming: StateModel)
    ensures
        merged(merged(prior, incoming), incoming) == merged(prior, incoming),
{
    assert(merged(merged(prior, incoming), incoming) =~= merged(prior, incoming));
}

/// Two updates in a row are one update: the second merged into the first.
pub proof fn merges_compose(prior: StateModel, first: StateModel, second: StateModel)
    ensures
        merged(merged(prior, first), second) == merged(prior, merged(first, second)),
{
    assert(merged(merged(prior, first), second) =~= merged(prior, merged(first, second)));
}

/// `s` cut to at most `max_bytes` bytes between two characters, with an ellipsis where something
/// was cut off.
pub open spec fn truncated(s: Seq<char>, max_bytes: nat) -> Seq<char> {
    if text::byte_len(s) <= max_bytes {
        s
    } else {
        s.take(text::fitting(s, max_bytes) as int).push('\u{2026}')
    }
}

/// Truncates `s` to at most `max_bytes` bytes, never inside a character, and appends an ellipsis
/// where something was cut off.
pub fn truncate_at_char_boundary(s: &str, max_bytes: usize) -> (r: String)
    ensures
        r@ == truncated(s@, max_bytes as nat),
{
    if text::bytes_in(s) <= max_bytes {
        return s.to_owned();
    }
    let mut r = text::clip_bytes(s, max_bytes);
    r.push('\u{2026}');
    r
}

/// A truncation keeps as much as fits: what stands before the ellipsis takes at most `max_bytes`
/// bytes, and one more character would take more.
pub proof fn truncation_is_tight(s: Seq<char>, max_bytes: nat)
    ensures
        text::byte_len(truncated(s, max_bytes)) <= max_bytes + 3,
        text::byte_len(s) > max_bytes ==> {
            let k = text::fitting(s, max_bytes) as int;
            &&& k < s.len()
            &&& text::byte_len(s.take(k)) <= max_bytes < text::byte_len(s.take(k + 1))
        },
{
    text::fitting_meaning(s, max_bytes);
    let k = text::fitting(s, max_bytes) as int;
    text::byte_len_of_push(s.take(k), '\u{2026}');
    if k == s.len() {
        assert(s.take(k) =~= s);
    }
}

/// `to` may be given work by `me`: it is the worker itself, everybody, the person at the
/// keyboard, or a known teammate.
pub open spec fn may_delegate(to: Seq<char>, me: Seq<char>, teammates: Seq<Seq<char>>) -> bool {
    to == me || to == "all"@ || to == "human"@ || teammates.contains(to)
}

/// Whether `to` is a valid delegate target for the worker `own_instance_id`. Anything that is not
/// reserved, not the worker itself and not a teammate is a hallucination.
pub fn is_allowed_delegate_target(
    to: &str,
    own_instance_id: &str,
    known_teammates: &Vec<String>,
) -> (r: bool)
    ensures
        r == may_delegate(to@, own_instance_id@, text::texts(known_teammates@)),
        r <==> to@ == own_instance_id@ || to@ == "all"@ || to@ == "human"@ || text::texts(
            known_teammates@,
        ).contains(to@),
{
    if text::same(to, own_instance_id) {
        return true;
    }
    if text::same(to, "all") || text::same(to, "human") {
        return true;
    }
    text::list_has(known_teammates, to)
}

// ── Configuration ───────────────────────────────────────────────────────────
/// How long a call of the tool may take where nothing else is configured, in seconds.
pub const DEFAULT_CLI_TIMEOUT_SECS: u64 = 300;

/// How a worker is set up.
pub struct WorkerHarness {
    pub instance_id: String,
    pub workdir: String,
    pub model: String,
    /// The command template, with the placeholders `{prompt}`, `{model}` and `{workdir}`.
    pub cli_template: String,
    /// The tool that the default template calls and that can answer in an envelope.
    pub tool: String,
    pub auto_reply: bool,
    pub batch_wait_ms: u64,
    /// Who is told of finished work.
    pub reports_to: Option<String>,
    /// The peers that the worker coordinates with.
    pub works_with: Vec<String>,
    /// Everybody in the team, with their roles.
    pub teammates: Vec<(String, String)>,
    pub cli_timeout_secs: u64,
}

/// The names of a list of names and roles.
pub open spec fn team_names(team: Seq<(String, String)>) -> Seq<Seq<char>> {
    Seq::new(team.len(), |i: int| team[i].0@)
}

impl WorkerHarness {
    /// A worker with the given configuration. `timeout` is the configured limit of a call, which
    /// counts where it is a number.
    pub fn new(
        instance_id: String,
        workdir: String,
        model: String,
        cli_template: Option<String>,
        tool: String,
        auto_reply: bool,
        batch_wait_ms: u64,
        reports_to: Option<String>,
        works_with: Vec<String>,
        teammates: Vec<(String, String)>,
        timeout: &Option<String>,
    ) -> (h: WorkerHarness)
        ensures
            h.instance_id == instance_id,
            h.workdir == workdir,
            h.model == model,
            h.cli_template@ == (match text::opt_text(cli_template) {
                Some(s) => s,
                None => command::template_for(tool@),
            }),
            h.tool == tool,
            h.auto_reply == auto_reply,
            h.batch_wait_ms == batch_wait_ms,
            h.reports_to == reports_to,
            h.works_with == works_with,
            h.teammates == teammates,
            h.cli_timeout_secs == (match text::opt_text(*timeout) {
                Some(s) => match text::number_of(s) {
                    Some(n) => n,
                    None => DEFAULT_CLI_TIMEOUT_SECS,
                },
                None => DEFAULT_CLI_TIMEOUT_SECS,
            }),
    {
        let cli_template = match cli_template {
            Some(s) => s,
            None => command::default_template(tool.as_str()),
        };
        let cli_timeout_secs: u64 = match timeout {
            Some(s) => match text::parse_number(s.as_str()) {
                Some(n) => n,
                None => DEFAULT_CLI_TIMEOUT_SECS,
            },
            None => DEFAULT_CLI_TIMEOUT_SECS,
        };
        WorkerHarness {
            instance_id,
            workdir,
            model,
            cli_template,
            tool,
            auto_reply,
            batch_wait_ms,
            reports_to,
            works_with,
            teammates,
            cli_timeout_secs,
        }
    }

    /// The same worker with another limit for a call.
    pub fn with_cli_timeout_secs(self, secs: u64) -> (h: WorkerHarness)
        ensures
            h == (WorkerHarness { cli_timeout_secs: secs, ..self }),
    {
        WorkerHarness { cli_timeout_secs: secs, ..self }
    }

    /// The names of everybody in the team.
    pub fn known_teammates(&self) -> (r: Vec<String>)
        ensures
            text::texts(r@) == team_names(self.teammates@),
    {
        let mut r: Vec<String> = Vec::new();
        let mut i: usize = 0;
        while i < self.teammates.len()
            invariant
                i <= self.teammates@.len(),
                text::texts(r@) == team_names(self.teammates@).take(i as int),
            decreases self.teammates@.len() - i,
        {
            let ghost before = r@;
            r.push(self.teammates[i].0.clone());
            assert(text::texts(r@) =~= text::texts(before).push(
                team_names(self.teammates@)[i as int],
            ));
            assert(team_names(self.teammates@).take(i + 1) =~= team_names(self.teammates@).take(
                i as int,
            ).push(team_names(self.teammates@)[i as int]));
            i += 1;
        }
        assert(team_names(self.teammates@).take(i as int) =~= team_names(self.teammates@));
        r
    }

    /// The command that this worker spawns for a prompt.
    pub fn command(&self, prompt: &str) -> (r: Result<command::CliCommand, command::CommandError>)
        ensures
            command::outcome(r) == command::planned_command(
                self.cli_template@,
                crate::outside::shell_words(self.cli_template@),
                prompt@,
                self.model@,
                self.workdir@,
                self.tool@,
            ),
    {
        command::command_for(
            self.cli_template.as_str(),
            prompt,
            self.model.as_str(),
            self.workdir.as_str(),
            self.tool.as_str(),
        )
    }
}

/// Whatever an update says replaces what was known.
pub proof fn updates_win(prior: StateModel, incoming: StateModel)
    ensures
        incoming.last_task is Some ==> merged(prior, incoming).last_task == incoming.last_task,
        incoming.pending is Some ==> merged(prior, incoming).pending == incoming.pending,
        incoming.status is Some ==> merged(prior, incoming).status == incoming.status,
        incoming.files_touched.len() > 0 ==> merged(prior, incoming).files_touched
            == incoming.files_touched,
        incoming.last_task is None ==> merged(prior, incoming).last_task == prior.last_task,
        incoming.pending is None ==> merged(prior, incoming).pending == prior.pending,
        incoming.status is None ==> merged(prior, incoming).status == prior.status,
        incoming.files_touched.len() == 0 ==> merged(prior, incoming).files_touched
            == prior.files_touched,
{
}

/// A text that fits is left alone; of any other the front is kept, and an ellipsis says so.
pub proof fn truncation_keeps_the_front(s: Seq<char>, max_bytes: nat)
    ensures
        text::byte_len(s) <= max_bytes ==> truncated(s, max_bytes) == s,
        text::byte_len(s) > max_bytes ==> {
            let r = truncated(s, max_bytes);
            &&& r.len() > 0
            &&& r.last() == '\u{2026}'
            &&& r.drop_last().is_prefix_of(s)
            &&& text::byte_len(r.drop_last()) <= max_bytes
            &&& r.len() <= s.len()
            &&& text::byte_len(s.take(r.len() as int)) > max_bytes
        },
{
    if text::byte_len(s) > max_bytes {
        truncation_is_tight(s, max_bytes);
        text::fitting_meaning(s, max_bytes);
        let k = text::fitting(s, max_bytes) as int;
        let r = truncated(s, max_bytes);
        assert(r.drop_last() =~= s.take(k));
        assert(s.take(k) =~= s.subrange(0, k));
    }
}

} // verus!
