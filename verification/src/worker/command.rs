//! From a command template to the program that is spawned: placeholders, leading environment
//! assignments and the extra arguments for tools whose output can be asked for as JSON.
use crate::outside;
use crate::text;
use vstd::prelude::*;

verus! {

/// The template used where a worker is not configured with one of its own. `{agent}` stands for
/// the tool, which is part of the configuration too.
pub const DEFAULT_CLI_TEMPLATE: &'static str =
    "{agent} -p {prompt} --model {model} --allowedTools Bash,Read,Write,Edit";

/// The default template for a tool; without a tool its placeholder stays.
pub open spec fn template_for(tool: Seq<char>) -> Seq<char> {
    if tool.len() == 0 {
        DEFAULT_CLI_TEMPLATE@
    } else {
        text::replaced(DEFAULT_CLI_TEMPLATE@, "{agent}"@, tool)
    }
}

/// The default template for a tool.
pub fn default_template(tool: &str) -> (r: String)
    ensures
        r@ == template_for(tool@),
{
    if tool.is_empty() {
        return DEFAULT_CLI_TEMPLATE.to_owned();
    }
    proof {
        reveal_strlit("{agent}");
    }
    text::replace(DEFAULT_CLI_TEMPLATE, "{agent}", tool)
}

// ── Environment assignments ─────────────────────────────────────────────────
pub open spec fn ascii_letter(c: char) -> bool {
    ('a' <= c <= 'z') || ('A' <= c <= 'Z')
}

/// A character that the name of an environment variable may hold.
pub open spec fn key_char(c: char) -> bool {
    outside::ascii_alphanumeric(c) || c == '_'
}

/// The name of an environment variable: letters, digits and underscores, not led by a digit.
pub open spec fn is_key(s: Seq<char>) -> bool {
    &&& s.len() > 0
    &&& ascii_letter(s[0]) || s[0] == '_'
    &&& forall|i: int| 0 <= i < s.len() ==> key_char(s[i])
}

/// `KEY=VALUE` with a valid key.
pub open spec fn env_assignment(s: Seq<char>) -> bool {
    match text::cut_at(s, '=') {
        Some(kv) => is_key(kv.0),
        None => false,
    }
}

/// Whether `s` is `KEY=VALUE` with a valid key.
pub fn is_env_assignment(s: &str) -> (r: bool)
    ensures
        r == env_assignment(s@),
{
    match text::split_once(s, '=') {
        Some(kv) => {
            let key = text::chars_of(kv.0.as_str());
            if key.len() == 0 {
                return false;
            }
            let c = key[0];
            if !(('a' <= c && c <= 'z') || ('A' <= c && c <= 'Z') || c == '_') {
                return false;
            }
            let mut i: usize = 0;
            while i < key.len()
                invariant
                    i <= key@.len(),
                    key@ == kv.0@,
                    text::cut_at(s@, '=') == Some((kv.0@, kv.1@)),
                    forall|j: int| 0 <= j < i ==> key_char(key@[j]),
                decreases key@.len() - i,
            {
                let c = key[i];
                if !(('0' <= c && c <= '9') || ('a' <= c && c <= 'z') || ('A' <= c && c <= 'Z') || c
                    == '_') {
                    assert(!key_char(kv.0@[i as int]));
                    return false;
                }
                i += 1;
            }
            true
        },
        None => false,
    }
}

/// How many of the parts, counted from the first, are environment assignments.
pub open spec fn env_count(parts: Seq<Seq<char>>) -> nat
    decreases parts.len(),
{
    if parts.len() > 0 && env_assignment(parts[0]) {
        1 + env_count(parts.drop_first())
    } else {
        0
    }
}

/// The count in other words: every part before it is an assignment, and the part at it is not.
pub proof fn env_count_meaning(parts: Seq<Seq<char>>)
    ensures
        env_count(parts) <= parts.len(),
        forall|i: int| 0 <= i < env_count(parts) ==> env_assignment(parts[i]),
        env_count(parts) < parts.len() ==> !env_assignment(parts[env_count(parts) as int]),
    decreases parts.len(),
{
    if parts.len() > 0 && env_assignment(parts[0]) {
        let rest = parts.drop_first();
        env_count_meaning(rest);
        assert forall|i: int| 0 <= i < env_count(parts) implies env_assignment(parts[i]) by {
            if i > 0 {
                assert(parts[i] == rest[i - 1]);
            }
        }
    }
}

/// The model of a list of environment variables.
pub open spec fn pairs(v: Seq<(String, String)>) -> Seq<(Seq<char>, Seq<char>)> {
    Seq::new(v.len(), |i: int| (v[i].0@, v[i].1@))
}

/// The variables that the leading assignments of `parts` set.
pub open spec fn env_of(parts: Seq<Seq<char>>) -> Seq<(Seq<char>, Seq<char>)> {
    Seq::new(env_count(parts), |i: int| text::cut_at(parts[i], '=')->0)
}

/// Takes the leading `KEY=VALUE` parts off a command line, as a shell does.
pub fn split_env_prefix(parts: Vec<String>) -> (r: (Vec<(String, String)>, Vec<String>))
    ensures
        pairs(r.0@) == env_of(text::texts(parts@)),
        text::texts(r.1@) == text::texts(parts@).skip(env_count(text::texts(parts@)) as int),
{
    let ghost all = text::texts(parts@);
    let mut env: Vec<(String, String)> = Vec::new();
    let mut i: usize = 0;
    proof {
        env_count_meaning(all);
        assert(all.skip(0) =~= all);
    }
    while i < parts.len() && is_env_assignment(parts[i].as_str())
        invariant
            i <= parts@.len(),
            all == text::texts(parts@),
            env_count(all) == i + env_count(all.skip(i as int)),
            pairs(env@) == Seq::new(i as nat, |k: int| text::cut_at(all[k], '=')->0),
        decreases parts@.len() - i,
    {
        assert(all.skip(i as int)[0] == parts@[i as int]@);
        assert(all.skip(i as int).drop_first() =~= all.skip(i + 1));
        let ghost before = env@;
        match text::split_once(parts[i].as_str(), '=') {
            Some(kv) => {
                env.push(kv);
                assert(pairs(env@) =~= pairs(before).push(text::cut_at(all[i as int], '=')->0));
            },
            None => {},
        }
        assert(pairs(env@) =~= Seq::new((i + 1) as nat, |k: int| text::cut_at(all[k], '=')->0));
        i += 1;
    }
    assert(i < parts@.len() ==> all.skip(i as int)[0] == parts@[i as int]@);
    assert(pairs(env@) =~= env_of(all));
    let mut rest: Vec<String> = Vec::new();
    let mut j: usize = i;
    while j < parts.len()
        invariant
            i <= j <= parts@.len(),
            all == text::texts(parts@),
            text::texts(rest@) == all.subrange(i as int, j as int),
        decreases parts@.len() - j,
    {
        let ghost before = rest@;
        rest.push(parts[j].clone());
        assert(text::texts(rest@) =~= text::texts(before).push(all[j as int]));
        assert(all.subrange(i as int, j + 1) =~= all.subrange(i as int, j as int).push(all[j as int]));
        j += 1;
    }
    (env, rest)
}

/// Nothing is lost: each variable, written `KEY=VALUE` again, is the part it came from, and the
/// other parts follow in their order.
pub proof fn env_prefix_rejoins(parts: Seq<Seq<char>>)
    ensures
        env_of(parts).len() + parts.skip(env_count(parts) as int).len() == parts.len(),
        forall|i: int|
            0 <= i < env_of(parts).len() ==> (#[trigger] env_of(parts)[i]).0 + seq!['=']
                + env_of(parts)[i].1 == parts[i],
{
    env_count_meaning(parts);
    assert forall|i: int| 0 <= i < env_of(parts).len() implies (#[trigger] env_of(parts)[i]).0 + seq![
        '=',
    ] + env_of(parts)[i].1 == parts[i] by {
        let s = parts[i];
        text::char_at_meaning(s, '=');
        let k = text::char_at(s, '=')->0;
        assert(s.take(k) + seq!['='] + s.skip(k + 1) =~= s);
    }
}

// ── What the program finds in its environment ───────────────────────────────
/// How the variables of the collaboration begin. None of them is handed down to a program, not
/// even one that a template sets.
pub const RESERVED_PREFIX: &'static str = "COLLAB_";

/// The variable is withheld from the program.
pub open spec fn reserved_variable(name: Seq<char>) -> bool {
    RESERVED_PREFIX@.is_prefix_of(name)
}

/// Whether the variable is withheld from the program.
pub fn is_reserved_variable(name: &str) -> (r: bool)
    ensures
        r == reserved_variable(name@),
{
    text::starts_with(name, RESERVED_PREFIX)
}

/// The variables that are handed down, in their order.
pub open spec fn handed_down(env: Seq<(Seq<char>, Seq<char>)>) -> Seq<(Seq<char>, Seq<char>)>
    decreases env.len(),
{
    if env.len() == 0 {
        Seq::empty()
    } else if reserved_variable(env.last().0) {
        handed_down(env.drop_last())
    } else {
        handed_down(env.drop_last()).push(env.last())
    }
}

/// The variables that are handed down.
pub fn hand_down(env: &Vec<(String, String)>) -> (r: Vec<(String, String)>)
    ensures
        pairs(r@) == handed_down(pairs(env@)),
{
    let ghost all = pairs(env@);
    let mut r: Vec<(String, String)> = Vec::new();
    let mut i: usize = 0;
    assert(pairs(r@) =~= handed_down(all.take(0)));
    while i < env.len()
        invariant
            i <= env@.len(),
            all == pairs(env@),
            pairs(r@) == handed_down(all.take(i as int)),
        decreases env@.len() - i,
    {
        assert(all.take(i + 1).drop_last() =~= all.take(i as int));
        assert(all.take(i + 1).last() == (env@[i as int].0@, env@[i as int].1@));
        if !is_reserved_variable(env[i].0.as_str()) {
            let ghost before = r@;
            r.push((env[i].0.clone(), env[i].1.clone()));
            assert(pairs(r@) =~= pairs(before).push(all[i as int]));
        }
        i += 1;
    }
    assert(all.take(i as int) =~= all);
    r
}

/// What a program finds in its environment: what is handed down to it, and behind that what its
/// command sets.
pub fn environment(inherited: &Vec<(String, String)>, command: &CliCommand) -> (r: Vec<
    (String, String),
>)
    ensures
        pairs(r@) == handed_down(pairs(inherited@)) + handed_down(command@.env),
{
    let mut r = hand_down(inherited);
    let mut own = hand_down(&command.env);
    let ghost a = r@;
    let ghost b = own@;
    r.append(&mut own);
    assert(pairs(r@) =~= pairs(a) + pairs(b));
    r
}

/// A variable is handed down exactly where it was there and is none of the collaboration's.
pub proof fn the_collaboration_is_withheld(
    env: Seq<(Seq<char>, Seq<char>)>,
    v: (Seq<char>, Seq<char>),
)
    ensures
        handed_down(env).contains(v) <==> env.contains(v) && !reserved_variable(v.0),
    decreases env.len(),
{
    if env.len() > 0 {
        let init = env.drop_last();
        let r = handed_down(init);
        let all = handed_down(env);
        the_collaboration_is_withheld(init, v);
        if all.contains(v) {
            let i = choose|i: int| 0 <= i < all.len() && all[i] == v;
            if i < r.len() {
                assert(r[i] == v);
                let j = choose|j: int| 0 <= j < init.len() && init[j] == v;
                assert(env[j] == v);
            } else {
                assert(env[env.len() - 1] == v);
            }
        }
        if env.contains(v) && !reserved_variable(v.0) {
            let i = choose|i: int| 0 <= i < env.len() && env[i] == v;
            if i < init.len() {
                assert(init[i] == v);
                let j = choose|j: int| 0 <= j < r.len() && r[j] == v;
                assert(all[j] == v);
            } else {
                assert(all[all.len() - 1] == v);
            }
        }
    }
}

// ── Building the command ────────────────────────────────────────────────────
/// The program to spawn.
pub struct CliCommand {
    /// Variables set for the program, none of them the collaboration's.
    pub env: Vec<(String, String)>,
    /// The program and its arguments.
    pub argv: Vec<String>,
    /// The program prints a JSON envelope round its answer.
    pub enveloped: bool,
}

/// The model of a [`CliCommand`].
#[verifier::ext_equal]
pub struct CommandModel {
    pub env: Seq<(Seq<char>, Seq<char>)>,
    pub argv: Seq<Seq<char>>,
    pub enveloped: bool,
}

impl View for CliCommand {
    type V = CommandModel;

    open spec fn view(&self) -> CommandModel {
        CommandModel {
            env: pairs(self.env@),
            argv: text::texts(self.argv@),
            enveloped: self.enveloped,
        }
    }
}

/// Why a template gives no command.
#[derive(Clone, Copy, PartialEq, Eq, Structural, Debug)]
pub enum CommandError {
    /// The template asks for a model and none is configured.
    NoModel,
    /// The placeholder for the tool itself was never filled in.
    AgentPlaceholder,
    /// A quote is left open.
    BadQuoting,
    /// The template holds no word.
    Empty,
    /// The template holds environment assignments and nothing else.
    NoCommand,
}

/// `part` with the placeholders filled in: the prompt, then the model, then the directory.
pub open spec fn filled(
    part: Seq<char>,
    prompt: Seq<char>,
    model: Seq<char>,
    workdir: Seq<char>,
) -> Seq<char> {
    text::replaced(
        text::replaced(text::replaced(part, "{prompt}"@, prompt), "{model}"@, model),
        "{workdir}"@,
        workdir,
    )
}

/// Every word with its placeholders filled in.
pub open spec fn filled_words(
    words: Seq<Seq<char>>,
    prompt: Seq<char>,
    model: Seq<char>,
    workdir: Seq<char>,
) -> Seq<Seq<char>> {
    Seq::new(words.len(), |i: int| filled(words[i], prompt, model, workdir))
}

/// The arguments that ask for a JSON envelope.
pub open spec fn envelope_args() -> Seq<Seq<char>> {
    seq!["--output-format"@, "json"@]
}

/// Whether a program is the configured tool, whose answer can be asked for as an envelope.
pub open spec fn is_tool(program: Seq<char>, tool: Seq<char>) -> bool {
    tool.len() > 0 && tool.is_suffix_of(program)
}

/// The command that filled-in words stand for; there is one behind the assignments.
pub open spec fn command_of(parts: Seq<Seq<char>>, tool: Seq<char>) -> CommandModel {
    let argv = parts.skip(env_count(parts) as int);
    let enveloped = is_tool(argv[0], tool);
    CommandModel {
        env: handed_down(env_of(parts)),
        argv: if enveloped {
            argv + envelope_args()
        } else {
            argv
        },
        enveloped,
    }
}

/// What a template comes to once it has been split into shell words.
pub open spec fn planned_command(
    template: Seq<char>,
    words: Option<Seq<Seq<char>>>,
    prompt: Seq<char>,
    model: Seq<char>,
    workdir: Seq<char>,
    tool: Seq<char>,
) -> Result<CommandModel, CommandError> {
    if text::contains_text(template, "{model}"@) && model.len() == 0 {
        Err(CommandError::NoModel)
    } else if text::contains_text(template, "{agent}"@) {
        Err(CommandError::AgentPlaceholder)
    } else {
        match words {
            None => Err(CommandError::BadQuoting),
            Some(w) => {
                let parts = filled_words(w, prompt, model, workdir);
                if w.len() == 0 {
                    Err(CommandError::Empty)
                } else if env_count(parts) == parts.len() {
                    Err(CommandError::NoCommand)
                } else {
                    Ok(command_of(parts, tool))
                }
            },
        }
    }
}

/// The model of an outcome.
pub open spec fn outcome(
    r: Result<CliCommand, CommandError>,
) -> Result<CommandModel, CommandError> {
    match r {
        Ok(c) => Ok(c@),
        Err(e) => Err(e),
    }
}

fn fill(part: &str, prompt: &str, model: &str, workdir: &str) -> (r: String)
    ensures
        r@ == filled(part@, prompt@, model@, workdir@),
{
    proof {
        reveal_strlit("{prompt}");
        reveal_strlit("{model}");
        reveal_strlit("{workdir}");
    }
    let a = text::replace(part, "{prompt}", prompt);
    let b = text::replace(a.as_str(), "{model}", model);
    text::replace(b.as_str(), "{workdir}", workdir)
}

/// The command for a template that has been split into `words`. The prompt replaces its
/// placeholder behind the split, so it stays one argument whatever it holds.
pub fn command_from_words(
    template: &str,
    words: Option<Vec<String>>,
    prompt: &str,
    model: &str,
    workdir: &str,
    tool: &str,
) -> (r: Result<CliCommand, CommandError>)
    ensures
        outcome(r) == planned_command(
            template@,
            match words {
                Some(w) => Some(text::texts(w@)),
                None => None,
            },
            prompt@,
            model@,
            workdir@,
            tool@,
        ),
{
    if text::contains(template, "{model}") && model.is_empty() {
        return Err(CommandError::NoModel);
    }
    if text::contains(template, "{agent}") {
        return Err(CommandError::AgentPlaceholder);
    }
    let words = match words {
        Some(w) => w,
        None => {
            return Err(CommandError::BadQuoting);
        },
    };
    if words.len() == 0 {
        return Err(CommandError::Empty);
    }
    let ghost parts_model = filled_words(text::texts(words@), prompt@, model@, workdir@);
    let mut parts: Vec<String> = Vec::new();
    let mut i: usize = 0;
    while i < words.len()
        invariant
            i <= words@.len(),
            parts_model == filled_words(text::texts(words@), prompt@, model@, workdir@),
            text::texts(parts@) == parts_model.take(i as int),
        decreases words@.len() - i,
    {
        let ghost before = parts@;
        parts.push(fill(words[i].as_str(), prompt, model, workdir));
        assert(text::texts(parts@) =~= text::texts(before).push(parts_model[i as int]));
        assert(parts_model.take(i + 1) =~= parts_model.take(i as int).push(parts_model[i as int]));
        i += 1;
    }
    assert(parts_model.take(i as int) =~= parts_model);
    proof {
        env_count_meaning(parts_model);
    }
    let (env, mut argv) = split_env_prefix(parts);
    assert(text::texts(argv@) == parts_model.skip(env_count(parts_model) as int));
    assert(text::texts(argv@).len() == argv@.len());
    if argv.len() == 0 {
        return Err(CommandError::NoCommand);
    }
    assert(text::texts(argv@)[0] == argv@[0]@);
    let enveloped = !tool.is_empty() && text::ends_with(argv[0].as_str(), tool);
    if enveloped {
        let ghost before = argv@;
        argv.push("--output-format".to_owned());
        argv.push("json".to_owned());
        assert(text::texts(argv@) =~= text::texts(before) + envelope_args());
    }
    let r = CliCommand { env: hand_down(&env), argv, enveloped };
    assert(r@ =~= command_of(parts_model, tool@));
    Ok(r)
}

/// The command for a template.
pub fn command_for(
    template: &str,
    prompt: &str,
    model: &str,
    workdir: &str,
    tool: &str,
) -> (r: Result<CliCommand, CommandError>)
    ensures
        outcome(r) == planned_command(
            template@,
            outside::shell_words(template@),
            prompt@,
            model@,
            workdir@,
            tool@,
        ),
{
    let words = outside::shell_split(template);
    command_from_words(template, words, prompt, model, workdir, tool)
}

/// What the operator is told of an error.
pub open spec fn command_error_text(
    e: CommandError,
    template: Seq<char>,
    tool: Seq<char>,
) -> Seq<char> {
    match e {
        CommandError::NoModel => "cli_template uses {model} but no model is configured.\nSet 'model' in workers.yaml or pass --model to collab worker."@,
        CommandError::AgentPlaceholder => "cli_template still contains {agent} placeholder \u{2014} you need to configure it.\nEdit .collab/workers.json or workers.yaml and replace {agent} with your CLI tool.\nExamples:\n  "@ + template_for(tool) + "\n  cursor -p {prompt} --model {model}\n  ollama run {model} {prompt}"@,
        CommandError::BadQuoting => "Invalid cli_template (bad quoting): "@ + template,
        CommandError::Empty => "cli_template expanded to empty command"@,
        CommandError::NoCommand => "cli_template has no command after env-var prefixes: "@ + template,
    }
}

impl CommandError {
    /// What the operator is told.
    pub fn message(&self, template: &str, tool: &str) -> (r: String)
        ensures
            r@ == command_error_text(*self, template@, tool@),
    {
        match self {
            CommandError::NoModel => "cli_template uses {model} but no model is configured.\nSet 'model' in workers.yaml or pass --model to collab worker.".to_owned(),
            CommandError::AgentPlaceholder => {
                let example = default_template(tool);
                let start = text::glue("cli_template still contains {agent} placeholder \u{2014} you need to configure it.\nEdit .collab/workers.json or workers.yaml and replace {agent} with your CLI tool.\nExamples:\n  ", example.as_str());
                text::glue(start.as_str(), "\n  cursor -p {prompt} --model {model}\n  ollama run {model} {prompt}")
            },
            CommandError::BadQuoting => text::glue("Invalid cli_template (bad quoting): ", template),
            CommandError::Empty => "cli_template expanded to empty command".to_owned(),
            CommandError::NoCommand => text::glue(
                "cli_template has no command after env-var prefixes: ",
                template,
            ),
        }
    }
}

/// The name under which a tool reports its usage: the first word of its template.
pub open spec fn tool_name(template: Seq<char>) -> Seq<char> {
    let w = text::words_of(template);
    if w.len() > 0 {
        w[0]
    } else {
        "unknown"@
    }
}

/// The first word of a template.
pub fn cli_name(template: &str) -> (r: String)
    ensures
        r@ == tool_name(template@),
{
    let w = text::words(template);
    if w.len() > 0 {
        assert(text::texts(w@)[0] == w@[0]@);
        w[0].clone()
    } else {
        assert(text::texts(w@).len() == 0);
        "unknown".to_owned()
    }
}

/// The default command calls the tool that is configured; without one the placeholder stays.
pub proof fn templates_call_the_tool(tool: Seq<char>)
    ensures
        tool.len() > 0 ==> tool.is_prefix_of(template_for(tool)),
        tool.len() == 0 ==> "{agent}"@.is_prefix_of(template_for(tool)),
{
    let d = DEFAULT_CLI_TEMPLATE@;
    let from = "{agent}"@;
    reveal_strlit("{agent}");
    reveal_strlit("{agent} -p {prompt} --model {model} --allowedTools Bash,Read,Write,Edit");
    assert(d.subrange(0, from.len() as int) =~= from);
    assert(text::occurs_at(d, from, 0));
    let r = text::replaced(d, from, tool);
    assert(r == tool + text::replaced_from(d, from, tool, from.len() as int));
    assert(tool =~= r.subrange(0, tool.len() as int));
}

/// A word is an assignment exactly where it holds a sign of equality, and what stands before the
/// first one is a name: letters, digits and underscores, no digit in front.
pub proof fn assignments_are_exact(key: Seq<char>, value: Seq<char>)
    requires
        forall|i: int| 0 <= i < key.len() ==> key[i] != '=',
    ensures
        env_assignment(key + seq!['='] + value) <==> {
            &&& key.len() > 0
            &&& ('a' <= key[0] <= 'z') || ('A' <= key[0] <= 'Z') || key[0] == '_'
            &&& forall|i: int|
                0 <= i < key.len() ==> outside::ascii_alphanumeric(#[trigger] key[i]) || key[i]
                    == '_'
        },
        !env_assignment(key),
{
    text::cuts_are_exact(key, '=', value);
    if is_key(key) {
        assert forall|i: int| 0 <= i < key.len() implies outside::ascii_alphanumeric(
            #[trigger] key[i],
        ) || key[i] == '_' by {
            assert(key_char(key[i]));
        }
    }
}

/// Assignments count as long as they stand in front of the command.
pub proof fn leading_assignments_count(key: Seq<char>, value: Seq<char>, rest: Seq<Seq<char>>)
    requires
        is_key(key),
        forall|i: int| 0 <= i < key.len() ==> key[i] != '=',
    ensures
        env_of(seq![key + seq!['='] + value] + rest) == seq![(key, value)] + env_of(rest),
        env_count(seq![key + seq!['='] + value] + rest) == 1 + env_count(rest),
        rest.len() > 0 && !env_assignment(rest[0]) ==> env_of(rest).len() == 0,
{
    text::cuts_are_exact(key, '=', value);
    let word = key + seq!['='] + value;
    let all = seq![word] + rest;
    assert(all[0] == word);
    assert(all.drop_first() =~= rest);
    env_count_meaning(rest);
    let n = env_count(rest);
    assert forall|i: int| 1 <= i < 1 + n implies #[trigger] all[i] == rest[i - 1] by {}
    assert(env_of(all) =~= seq![(key, value)] + env_of(rest));
}

/// A placeholder that is a whole word is filled in as a whole, and a word without placeholders stays.
pub proof fn placeholders_are_filled(
    part: Seq<char>,
    prompt: Seq<char>,
    model: Seq<char>,
    workdir: Seq<char>,
)
    requires
        forall|i: int| 0 <= i < part.len() ==> part[i] != '{',
        forall|i: int| 0 <= i < prompt.len() ==> prompt[i] != '{',
        forall|i: int| 0 <= i < model.len() ==> model[i] != '{',
    ensures
        filled(part, prompt, model, workdir) == part,
        filled("{prompt}"@, prompt, model, workdir) == prompt,
        filled("{model}"@, prompt, model, workdir) == model,
        filled("{workdir}"@, prompt, model, workdir) == workdir,
{
    reveal_strlit("{prompt}");
    reveal_strlit("{model}");
    reveal_strlit("{workdir}");
    let p = "{prompt}"@;
    let m = "{model}"@;
    let w = "{workdir}"@;
    nothing_to_fill(part, p, prompt);
    nothing_to_fill(part, m, model);
    nothing_to_fill(part, w, workdir);
    nothing_to_fill(prompt, m, model);
    nothing_to_fill(prompt, w, workdir);
    nothing_to_fill(model, w, workdir);
    whole_is_filled(p, prompt);
    whole_is_filled(m, model);
    whole_is_filled(w, workdir);
    placeholders_are_apart(prompt, model);
}

proof fn placeholders_are_apart(prompt: Seq<char>, model: Seq<char>)
    ensures
        text::replaced("{model}"@, "{prompt}"@, prompt) == "{model}"@,
        text::replaced("{workdir}"@, "{prompt}"@, prompt) == "{workdir}"@,
        text::replaced("{workdir}"@, "{model}"@, model) == "{workdir}"@,
{
    reveal_strlit("{prompt}");
    reveal_strlit("{model}");
    reveal_strlit("{workdir}");
    let p = "{prompt}"@;
    let m = "{model}"@;
    let w = "{workdir}"@;
    text::replacements_are_exact(m, p, prompt);
    assert forall|j: int| !text::occurs_at(w, p, j) by {
        if text::occurs_at(w, p, j) {
            assert(w.subrange(j, j + 8)[0] == w[j]);
            assert(w.subrange(j, j + 8)[1] == w[j + 1]);
        }
    }
    assert forall|j: int| !text::occurs_at(w, m, j) by {
        if text::occurs_at(w, m, j) {
            assert(w.subrange(j, j + 7)[0] == w[j]);
            assert(w.subrange(j, j + 7)[1] == w[j + 1]);
        }
    }
    text::replacements_are_exact(w, p, prompt);
    text::replacements_are_exact(w, m, model);
}

proof fn whole_is_filled(n: Seq<char>, to: Seq<char>)
    requires
        n.len() > 0,
    ensures
        text::replaced(n, n, to) == to,
{
    text::replacements_are_exact(n, n, to);
}

proof fn nothing_to_fill(s: Seq<char>, n: Seq<char>, to: Seq<char>)
    requires
        forall|i: int| 0 <= i < s.len() ==> s[i] != '{',
        n.len() > 0,
        n[0] == '{',
    ensures
        text::replaced(s, n, to) == s,
{
    assert forall|j: int| !text::occurs_at(s, n, j) by {
        if text::occurs_at(s, n, j) {
            assert(s.subrange(j, j + n.len())[0] == s[j]);
        }
    }
    text::replacements_are_exact(s, n, to);
}

/// What is refused and what is run: a template that needs a model without one, that still holds the
/// placeholder of the tool, that is badly quoted, that is empty or has no command is refused;
/// otherwise the words behind the assignments are run, and a call of the tool asks for an envelope.
pub proof fn commands_are_exact(
    template: Seq<char>,
    words: Option<Seq<Seq<char>>>,
    prompt: Seq<char>,
    model: Seq<char>,
    workdir: Seq<char>,
    tool: Seq<char>,
)
    ensures
        ({
            let r = planned_command(template, words, prompt, model, workdir, tool);
            let no_model = text::contains_text(template, "{model}"@) && model.len() == 0;
            let no_tool = text::contains_text(template, "{agent}"@);
            &&& r == Err::<CommandModel, CommandError>(CommandError::NoModel) <==> no_model
            &&& r == Err::<CommandModel, CommandError>(CommandError::AgentPlaceholder) <==> !no_model
                && no_tool
            &&& r == Err::<CommandModel, CommandError>(CommandError::BadQuoting) <==> !no_model
                && !no_tool && words is None
            &&& r == Err::<CommandModel, CommandError>(CommandError::Empty) <==> !no_model && !no_tool
                && words is Some && words->0.len() == 0
            &&& r is Ok ==> {
                let parts = filled_words(words->0, prompt, model, workdir);
                let n = env_count(parts) as int;
                let c = r->Ok_0;
                &&& n < parts.len()
                &&& parts.skip(n).is_prefix_of(c.argv)
                &&& c.enveloped <==> tool.len() > 0 && tool.is_suffix_of(parts[n])
                &&& c.enveloped ==> c.argv == parts.skip(n) + seq!["--output-format"@, "json"@]
                &&& !c.enveloped ==> c.argv == parts.skip(n)
            }
        }),
{
    let r = planned_command(template, words, prompt, model, workdir, tool);
    if r is Ok {
        let parts = filled_words(words->0, prompt, model, workdir);
        let n = env_count(parts) as int;
        env_count_meaning(parts);
        let run = parts.skip(n);
        let c = r->Ok_0;
        assert(run[0] == parts[n]);
        assert(run =~= c.argv.subrange(0, run.len() as int));
    }
}

/// The tool is named by the first word of its command.
pub proof fn tools_are_named_by_their_command(word: Seq<char>, c: char, rest: Seq<char>)
    requires
        word.len() > 0,
        forall|j: int| 0 <= j < word.len() ==> !text::is_space(#[trigger] word[j]),
        text::is_space(c),
    ensures
        tool_name(word) == word,
        tool_name(word + seq![c] + rest) == word,
        tool_name(seq![c] + word) == word,
        tool_name(Seq::empty()) == "unknown"@,
{
    text::blanks_part_words(word, c, rest);
    text::blanks_part_words(word, c, word);
}

/// Every variable is handed down as it is, in order, but for those of the collaboration itself.
pub proof fn each_variable_is_handed_down_alone(
    a: Seq<(Seq<char>, Seq<char>)>,
    b: Seq<(Seq<char>, Seq<char>)>,
    x: (Seq<char>, Seq<char>),
)
    ensures
        handed_down(a + b) == handed_down(a) + handed_down(b),
        handed_down(seq![x]) == (if "COLLAB_"@.is_prefix_of(x.0) {
            Seq::empty()
        } else {
            seq![x]
        }),
    decreases b.len(),
{
    let one = seq![x];
    assert(one.drop_last() =~= Seq::<(Seq<char>, Seq<char>)>::empty());
    assert(handed_down(one.drop_last()).len() == 0);
    assert(handed_down(one) =~= (if "COLLAB_"@.is_prefix_of(x.0) {
            Seq::empty()
        } else {
            seq![x]
        }));
    if b.len() == 0 {
        assert(a + b =~= a);
        assert(handed_down(a) + handed_down(b) =~= handed_down(a));
    } else {
        each_variable_is_handed_down_alone(a, b.drop_last(), x);
        assert((a + b).drop_last() =~= a + b.drop_last());
        assert((a + b).last() == b.last());
        assert(handed_down(a + b) =~= handed_down(a) + handed_down(b));
    }
}

/// What is told of a command that cannot be run names the template where that is at fault.
pub proof fn errors_name_the_template(template: Seq<char>, tool: Seq<char>)
    ensures
        template.is_suffix_of(command_error_text(CommandError::BadQuoting, template, tool)),
        template.is_suffix_of(command_error_text(CommandError::NoCommand, template, tool)),
        text::holds(
            command_error_text(CommandError::AgentPlaceholder, template, tool),
            template_for(tool),
        ),
        "cli_template"@.is_prefix_of(command_error_text(CommandError::NoModel, template, tool)),
        "cli_template"@.is_prefix_of(command_error_text(CommandError::Empty, template, tool)),
{
    let a = command_error_text(CommandError::BadQuoting, template, tool);
    let b = command_error_text(CommandError::NoCommand, template, tool);
    assert(template =~= a.subrange(a.len() - template.len(), a.len() as int));
    assert(template =~= b.subrange(b.len() - template.len(), b.len() as int));
    text::middle_is_held(
        "cli_template still contains {agent} placeholder \u{2014} you need to configure it.\nEdit .collab/workers.json or workers.yaml and replace {agent} with your CLI tool.\nExamples:\n  "@,
        template_for(tool),
        "\n  cursor -p {prompt} --model {model}\n  ollama run {model} {prompt}"@,
    );
    reveal_strlit("cli_template");
    reveal_strlit("cli_template expanded to empty command");
    reveal_strlit("cli_template uses {model} but no model is configured.\nSet 'model' in workers.yaml or pass --model to collab worker.");
    let c = command_error_text(CommandError::NoModel, template, tool);
    let d = command_error_text(CommandError::Empty, template, tool);
    assert("cli_template"@ =~= c.subrange(0, 12));
    assert("cli_template"@ =~= d.subrange(0, 12));
}

/// A command is given the variables assigned before it, but for those of the collaboration itself.
pub proof fn commands_keep_their_variables(
    template: Seq<char>,
    words: Option<Seq<Seq<char>>>,
    prompt: Seq<char>,
    model: Seq<char>,
    workdir: Seq<char>,
    tool: Seq<char>,
    v: (Seq<char>, Seq<char>),
)
    ensures
        planned_command(template, words, prompt, model, workdir, tool) matches Ok(c) ==> (
        c.env.contains(v) <==> env_of(
            filled_words(words->0, prompt, model, workdir),
        ).contains(v) && !"COLLAB_"@.is_prefix_of(v.0)),
        words is Some ==> filled_words(words->0, prompt, model, workdir).len() == words->0.len(),
{
    if words is Some {
        the_collaboration_is_withheld(
            env_of(filled_words(words->0, prompt, model, workdir)),
            v,
        );
    }
}

} // verus!
