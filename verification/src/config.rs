//! Where settings come from: flags, variables, `.env` files and configuration files.
use crate::paths;
use crate::team;
use crate::text;
use vstd::prelude::*;

verus! {

// ── Configuration files ─────────────────────────────────────────────────────
/// A configuration file.
pub struct Config {
    pub host: Option<String>,
    pub instance: Option<String>,
    pub token: Option<String>,
}

/// The model of a [`Config`].
#[verifier::ext_equal]
pub struct ConfigModel {
    pub host: Option<Seq<char>>,
    pub instance: Option<Seq<char>>,
    pub token: Option<Seq<char>>,
}

impl View for Config {
    type V = ConfigModel;

    open spec fn view(&self) -> ConfigModel {
        ConfigModel {
            host: text::opt_text(self.host),
            instance: text::opt_text(self.instance),
            token: text::opt_text(self.token),
        }
    }
}

/// A file that says nothing.
pub open spec fn nothing_said() -> ConfigModel {
    ConfigModel { host: None, instance: None, token: None }
}

/// A file that is there, or one that says nothing.
pub open spec fn said(c: Option<Config>) -> ConfigModel {
    match c {
        Some(x) => x@,
        None => nothing_said(),
    }
}

/// What two files say together: the first one comes first.
pub open spec fn together(local: ConfigModel, global: ConfigModel) -> ConfigModel {
    ConfigModel {
        host: team::own_or(local.host, global.host),
        instance: team::own_or(local.instance, global.instance),
        token: team::own_or(local.token, global.token),
    }
}

fn first_of(a: Option<String>, b: Option<String>) -> (r: Option<String>)
    ensures
        text::opt_text(r) == team::own_or(text::opt_text(a), text::opt_text(b)),
{
    if a.is_some() {
        a
    } else {
        b
    }
}

/// What the nearer and the global file say together.
pub fn load_config(local: Option<Config>, global: Option<Config>) -> (r: Config)
    ensures
        r@ == together(said(local), said(global)),
{
    let l = match local {
        Some(c) => c,
        None => Config { host: None, instance: None, token: None },
    };
    let g = match global {
        Some(c) => c,
        None => Config { host: None, instance: None, token: None },
    };
    Config {
        host: first_of(l.host, g.host),
        instance: first_of(l.instance, g.instance),
        token: first_of(l.token, g.token),
    }
}

/// What a command runs with.
pub struct Settings {
    pub server: String,
    pub instance: Option<String>,
    pub token: Option<String>,
}

/// What a command runs with: flags come before variables, variables before files.
pub fn settings(
    flag_server: Option<String>,
    flag_instance: Option<String>,
    env_server: Option<String>,
    env_instance: Option<String>,
    env_token: Option<String>,
    file: Config,
) -> (r: Settings)
    ensures
        r.server@ == (match team::own_or(
            text::opt_text(flag_server),
            team::own_or(text::opt_text(env_server), file@.host),
        ) {
            Some(s) => s,
            None => team::DEFAULT_SERVER@,
        }),
        text::opt_text(r.instance) == team::own_or(
            text::opt_text(flag_instance),
            team::own_or(text::opt_text(env_instance), file@.instance),
        ),
        text::opt_text(r.token) == team::own_or(text::opt_text(env_token), file@.token),
{
    let server = match first_of(flag_server, first_of(env_server, file.host)) {
        Some(s) => s,
        None => team::DEFAULT_SERVER.to_owned(),
    };
    Settings {
        server,
        instance: first_of(flag_instance, first_of(env_instance, file.instance)),
        token: first_of(env_token, file.token),
    }
}

/// The token that a server demands: the administrator's variable, else the older one, else the
/// one in the file.
pub fn server_token(admin: Option<String>, older: Option<String>, file: Option<String>) -> (r: Option<
    String,
>)
    ensures
        text::opt_text(r) == team::own_or(
            text::opt_text(admin),
            team::own_or(text::opt_text(older), text::opt_text(file)),
        ),
{
    first_of(admin, first_of(older, file))
}

// ── Searching upward ────────────────────────────────────────────────────────
/// The directory is the home directory.
pub open spec fn is_home(dir: Seq<char>, home: Option<Seq<char>>) -> bool {
    home matches Some(h) && paths::bare(h) == paths::bare(dir)
}

/// The directories before the home directory: the file there is the global one, not a local one.
pub open spec fn below_home(dirs: Seq<Seq<char>>, home: Option<Seq<char>>) -> Seq<Seq<char>>
    decreases dirs.len(),
{
    if dirs.len() == 0 || is_home(dirs[0], home) {
        Seq::empty()
    } else {
        seq![dirs[0]] + below_home(dirs.drop_first(), home)
    }
}

/// The directories that are searched for a file, from `cwd` upward.
pub fn search_dirs(cwd: &str, home: &Option<String>) -> (r: Vec<String>)
    ensures
        text::texts(r@) == below_home(paths::upward(cwd@), text::opt_text(*home)),
{
    let dirs = paths::ancestors(cwd);
    let ghost all = text::texts(dirs@);
    let ghost h = text::opt_text(*home);
    let mut r: Vec<String> = Vec::new();
    let mut i: usize = 0;
    assert(all.skip(0) =~= all);
    assert(text::texts(r@) + below_home(all, h) =~= below_home(all, h));
    while i < dirs.len()
        invariant
            i <= dirs@.len(),
            all == text::texts(dirs@),
            h == text::opt_text(*home),
            all == paths::upward(cwd@),
            text::texts(r@) + below_home(all.skip(i as int), h) == below_home(all, h),
        decreases dirs@.len() - i,
    {
        let ghost here = dirs@[i as int]@;
        let ghost before = text::texts(r@);
        let ghost rest = below_home(all.skip(i + 1), h);
        assert(all.skip(i as int).drop_first() =~= all.skip(i + 1));
        assert(all.skip(i as int)[0] == here);
        if let Some(x) = home {
            if paths::same_path(x.as_str(), dirs[i].as_str()) {
                assert(before + Seq::<Seq<char>>::empty() =~= before);
                return r;
            }
        }
        r.push(dirs[i].clone());
        assert(text::texts(r@) =~= before.push(here));
        assert(before.push(here) + rest =~= before + (seq![here] + rest));
        i += 1;
    }
    assert(text::texts(r@) + below_home(all.skip(i as int), h) =~= text::texts(r@));
    r
}

/// The first directory in which something was found.
pub open spec fn first_hit(dirs: Seq<Seq<char>>, found: Seq<bool>) -> Option<Seq<char>>
    decreases dirs.len(),
{
    if dirs.len() == 0 || found.len() == 0 {
        None
    } else if found[0] {
        Some(dirs[0])
    } else {
        first_hit(dirs.drop_first(), found.drop_first())
    }
}

/// The first directory in which something was found; `found` says of each directory whether it
/// was there.
pub fn first_found(dirs: &Vec<String>, found: &Vec<bool>) -> (r: Option<String>)
    ensures
        text::opt_text(r) == first_hit(text::texts(dirs@), found@),
{
    let ghost all = text::texts(dirs@);
    let mut i: usize = 0;
    assert(all.skip(0) =~= all);
    assert(found@.skip(0) =~= found@);
    while i < dirs.len() && i < found.len()
        invariant
            i <= dirs@.len(),
            i <= found@.len(),
            all == text::texts(dirs@),
            first_hit(all, found@) == first_hit(all.skip(i as int), found@.skip(i as int)),
        decreases dirs@.len() - i,
    {
        assert(all.skip(i as int).drop_first() =~= all.skip(i + 1));
        assert(found@.skip(i as int).drop_first() =~= found@.skip(i + 1));
        assert(all.skip(i as int)[0] == dirs@[i as int]@);
        if found[i] {
            return Some(dirs[i].clone());
        }
        i += 1;
    }
    None
}

/// The name of a configuration file.
pub const CONFIG_FILE: &'static str = ".collab.toml";

/// The local configuration file: the nearest one at or above `cwd` and below the home directory,
/// without which none is looked for. `found` says of each directory that is searched whether it
/// holds one.
pub fn local_config_path(cwd: &str, home: &Option<String>, found: &Vec<bool>) -> (r: Option<String>)
    ensures
        text::opt_text(r) == (if home is None {
            None
        } else {
            match first_hit(below_home(paths::upward(cwd@), text::opt_text(*home)), found@) {
                Some(d) => Some(paths::below(d, CONFIG_FILE@)),
                None => None,
            }
        }),
{
    if home.is_none() {
        return None;
    }
    match first_found(&search_dirs(cwd, home), found) {
        Some(d) => Some(paths::join(d.as_str(), CONFIG_FILE)),
        None => None,
    }
}

// ── Variables from a file ───────────────────────────────────────────────────
/// The variable that a line of a `.env` file sets, and its value; quotes around the value do not
/// count.
pub open spec fn assignment(line: Seq<char>) -> Option<(Seq<char>, Seq<char>)> {
    let t = text::trimmed(line);
    if t.len() == 0 || t[0] == '#' {
        None
    } else {
        match text::cut_at(t, '=') {
            Some(kv) => Some(
                (
                    text::trimmed(kv.0),
                    text::strip_both(
                        text::strip_both(text::trimmed(kv.1), text::Class::Only('"')),
                        text::Class::Only('\''),
                    ),
                ),
            ),
            None => None,
        }
    }
}

/// The variables that the lines of a `.env` file set, in order.
pub open spec fn assignments(lines: Seq<Seq<char>>) -> Seq<(Seq<char>, Seq<char>)>
    decreases lines.len(),
{
    if lines.len() == 0 {
        Seq::empty()
    } else {
        match assignment(lines.last()) {
            Some(kv) => assignments(lines.drop_last()).push(kv),
            None => assignments(lines.drop_last()),
        }
    }
}

/// The variables that a `.env` file sets, in order.
pub fn parse_dotenv(contents: &str) -> (r: Vec<(String, String)>)
    ensures
        text::pair_texts(r@) == assignments(text::lines_of(contents@)),
{
    let lines = text::lines(contents);
    let ghost all = text::texts(lines@);
    let mut r: Vec<(String, String)> = Vec::new();
    let mut i: usize = 0;
    assert(text::pair_texts(r@) =~= assignments(all.take(0)));
    while i < lines.len()
        invariant
            i <= lines@.len(),
            all == text::texts(lines@),
            text::pair_texts(r@) == assignments(all.take(i as int)),
        decreases lines@.len() - i,
    {
        assert(all.take(i + 1).drop_last() =~= all.take(i as int));
        assert(all.take(i + 1).last() == lines@[i as int]@);
        let t = text::trim(lines[i].as_str());
        let v = text::chars_of(t.as_str());
        if v.len() > 0 && v[0] != '#' {
            if let Some(kv) = text::split_once(t.as_str(), '=') {
                let key = text::trim(kv.0.as_str());
                let raw = text::trim(kv.1.as_str());
                let inner = text::trim_both(raw.as_str(), text::Class::Only('"'));
                let value = text::trim_both(inner.as_str(), text::Class::Only('\''));
                let ghost before = r@;
                let ghost p = (key@, value@);
                r.push((key, value));
                assert(text::pair_texts(r@) =~= text::pair_texts(before).push(p));
            }
        }
        i += 1;
    }
    assert(all.take(i as int) =~= all);
    r
}

/// What becomes of a variable in a `.env` file.
pub enum Assigned {
    /// It is set now.
    Taken,
    /// It is set already, to the same value or to one that nobody is warned of.
    Kept,
    /// It is set already to another value; somebody should know.
    Shadowed(String),
}

/// How a value is shown: the beginning only, where it is a secret.
pub open spec fn displayed(value: Seq<char>, secret: bool) -> Seq<char> {
    if secret {
        "'"@ + (if value.len() <= 8 {
            value
        } else {
            value.take(8)
        }) + "\u{2026}'"@
    } else {
        "'"@ + value + "'"@
    }
}

/// A variable whose value is a secret.
pub open spec fn is_secret(key: Seq<char>) -> bool {
    text::contains_text(key, "TOKEN"@) || text::contains_text(key, "SECRET"@)
}

/// What somebody is told whose variable hides the one in the file `path`.
pub open spec fn shadow_text(
    key: Seq<char>,
    existing: Seq<char>,
    value: Seq<char>,
    path: Seq<char>,
) -> Seq<
    char,
> {
    "(warning) shell $"@ + key + "="@ + displayed(existing, is_secret(key)) + " shadows "@
        + displayed(value, is_secret(key)) + " from "@ + path
        + ". To use the .env value instead: unset "@ + key + " && eval $(cat "@ + path + ")"@
}

fn display(value: &str, secret: bool) -> (r: String)
    ensures
        r@ == displayed(value@, secret),
{
    if secret {
        text::glue3("'", text::clip_chars(value, 8).as_str(), "\u{2026}'")
    } else {
        text::glue3("'", value, "'")
    }
}

/// Decides what becomes of a variable in the `.env` file `path`, given the value that it has
/// already. A variable that is set stays as it is.
pub fn assign(key: &str, value: &str, existing: &Option<String>, path: &str) -> (r: Assigned)
    ensures
        match text::opt_text(*existing) {
            None => r is Taken,
            Some(x) => if x != value@ && text::after_prefix(key@, "COLLAB_"@) is Some {
                r matches Assigned::Shadowed(m) && m@ == shadow_text(key@, x, value@, path@)
            } else {
                r is Kept
            },
        },
{
    let x = match existing {
        Some(x) => x,
        None => {
            return Assigned::Taken;
        },
    };
    if text::same(x.as_str(), value) || text::strip_prefix(key, "COLLAB_").is_none() {
        return Assigned::Kept;
    }
    let secret = text::contains(key, "TOKEN") || text::contains(key, "SECRET");
    let mut m = text::glue3("(warning) shell $", key, "=");
    m.append(display(x.as_str(), secret).as_str());
    m.append(" shadows ");
    m.append(display(value, secret).as_str());
    m.append(" from ");
    m.append(path);
    m.append(". To use the .env value instead: unset ");
    m.append(key);
    m.append(" && eval $(cat ");
    m.append(path);
    m.append(")");
    Assigned::Shadowed(m)
}

// ── Arguments ───────────────────────────────────────────────────────────────
/// The hashes in a list with commas.
pub open spec fn ref_list(s: Seq<char>) -> Seq<Seq<char>> {
    let p = text::pieces(s, ',');
    Seq::new(p.len(), |i: int| text::trimmed(p[i]))
}

/// The hashes in a list with commas.
pub fn split_refs(s: &str) -> (r: Vec<String>)
    ensures
        text::texts(r@) == ref_list(s@),
{
    let parts = text::split(s, ',');
    let ghost want = ref_list(s@);
    let mut r: Vec<String> = Vec::new();
    let mut i: usize = 0;
    while i < parts.len()
        invariant
            i <= parts@.len(),
            text::texts(parts@) == text::pieces(s@, ','),
            want == ref_list(s@),
            r@.len() == i,
            forall|k: int| 0 <= k < i ==> (#[trigger] r@[k])@ == want[k],
        decreases parts@.len() - i,
    {
        assert(text::pieces(s@, ',')[i as int] == parts@[i as int]@);
        r.push(text::trim(parts[i].as_str()));
        i += 1;
    }
    assert(text::pieces(s@, ',').len() == parts@.len());
    assert(text::texts(r@) =~= want);
    r
}

/// What somebody is told who uses an older name.
pub const ADD_IS_SEND: &'static str =
    "(deprecation) `collab add` is now `collab send`. The old name still works.";

pub const STATUS_IS_PS: &'static str =
    "(deprecation) `collab lifecycle-status` is now `collab ps`. The old name still works.";

pub const ROLE_IS_STATUS: &'static str =
    "(deprecation) `collab stream --role` is now `--status`. The old flag still works.";

/// What somebody is told who uses one argument, where `streams` says whether they want a stream.
pub open spec fn notice_for(arg: Seq<char>, streams: bool) -> Option<Seq<char>> {
    if arg == "add"@ {
        Some(ADD_IS_SEND@)
    } else if arg == "lifecycle-status"@ {
        Some(STATUS_IS_PS@)
    } else if arg == "--role"@ && streams {
        Some(ROLE_IS_STATUS@)
    } else {
        None
    }
}

/// What somebody is told of the first argument that is an older name.
pub open spec fn first_notice(args: Seq<Seq<char>>, streams: bool) -> Option<Seq<char>>
    decreases args.len(),
{
    if args.len() == 0 {
        None
    } else {
        match notice_for(args[0], streams) {
            Some(n) => Some(n),
            None => first_notice(args.drop_first(), streams),
        }
    }
}

/// What somebody is told who uses an older name, given all the arguments behind the program's.
pub fn deprecation(args: &Vec<String>) -> (r: Option<String>)
    ensures
        text::opt_text(r) == first_notice(
            text::texts(args@),
            text::texts(args@).contains("stream"@),
        ),
{
    let streams = text::list_has(args, "stream");
    let ghost all = text::texts(args@);
    let mut i: usize = 0;
    assert(all.skip(0) =~= all);
    while i < args.len()
        invariant
            i <= args@.len(),
            all == text::texts(args@),
            streams == all.contains("stream"@),
            first_notice(all, streams) == first_notice(all.skip(i as int), streams),
        decreases args@.len() - i,
    {
        assert(all.skip(i as int).drop_first() =~= all.skip(i + 1));
        assert(all.skip(i as int)[0] == args@[i as int]@);
        let a = args[i].as_str();
        if text::same(a, "add") {
            return Some(ADD_IS_SEND.to_owned());
        }
        if text::same(a, "lifecycle-status") {
            return Some(STATUS_IS_PS.to_owned());
        }
        if text::same(a, "--role") && streams {
            return Some(ROLE_IS_STATUS.to_owned());
        }
        i += 1;
    }
    None
}

/// The name of this machine: the variable, else what the machine says, else nothing known.
pub fn hostname(variable: &Option<String>, machine: &Option<String>) -> (r: String)
    ensures
        r@ == (match text::opt_text(*variable) {
            Some(h) if h.len() > 0 => h,
            _ => match text::opt_text(*machine) {
                Some(m) if text::trimmed(m).len() > 0 => text::trimmed(m),
                _ => "unknown"@,
            },
        }),
{
    if let Some(h) = variable {
        if !h.as_str().is_empty() {
            return h.clone();
        }
    }
    if let Some(m) = machine {
        let t = text::trim(m.as_str());
        if !t.as_str().is_empty() {
            return t;
        }
    }
    "unknown".to_owned()
}

// ── Laws ────────────────────────────────────────────────────────────────────
/// Where both files say something the nearer one counts, and else the one that says it.
pub proof fn nearer_files_win(local: ConfigModel, global: ConfigModel)
    ensures
        local.host is Some ==> together(local, global).host == local.host,
        local.host is None ==> together(local, global).host == global.host,
        local.token is Some ==> together(local, global).token == local.token,
        local.instance is Some ==> together(local, global).instance == local.instance,
        together(local, nothing_said()) == local,
        together(nothing_said(), global) == global,
{
    assert(together(local, nothing_said()) =~= local);
    assert(together(nothing_said(), global) =~= global);
}

/// No more of a secret is shown than its first eight characters.
pub proof fn secrets_stay_hidden(value: Seq<char>)
    ensures
        displayed(value, true).len() <= 8 + "'"@.len() + "\u{2026}'"@.len(),
{
}

/// The search ends before the home directory: it takes in everything below, and nothing else.
pub proof fn searches_end_before_home(dirs: Seq<Seq<char>>, home: Option<Seq<char>>)
    ensures
        below_home(dirs, home).is_prefix_of(dirs),
        forall|i: int|
            0 <= i < below_home(dirs, home).len() ==> !is_home(
                #[trigger] below_home(dirs, home)[i],
                home,
            ),
        below_home(dirs, home).len() < dirs.len() ==> is_home(
            dirs[below_home(dirs, home).len() as int],
            home,
        ),
    decreases dirs.len(),
{
    if dirs.len() > 0 && !is_home(dirs[0], home) {
        let rest = dirs.drop_first();
        let found = below_home(rest, home);
        let all = below_home(dirs, home);
        searches_end_before_home(rest, home);
        assert forall|i: int| 0 <= i < all.len() implies !is_home(#[trigger] all[i], home)
            && all[i] == dirs[i] by {
            if i > 0 {
                assert(all[i] == found[i - 1]);
                assert(rest[i - 1] == found[i - 1]);
            }
        }
        assert(all =~= dirs.subrange(0, all.len() as int));
    }
}

/// Every line of a file of variables is read by itself, in order.
pub proof fn each_line_is_read_alone(a: Seq<Seq<char>>, b: Seq<Seq<char>>, x: Seq<char>)
    ensures
        assignments(a + b) == assignments(a) + assignments(b),
        assignments(seq![x]) == (match assignment(x) {
            Some(kv) => seq![kv],
            None => Seq::empty(),
        }),
    decreases b.len(),
{
    let one = seq![x];
    assert(one.drop_last() =~= Seq::<Seq<char>>::empty());
    assert(assignments(one.drop_last()).len() == 0);
    assert(assignments(one.drop_last()) =~= Seq::<(Seq<char>, Seq<char>)>::empty());
    assert(assignments(one) =~= (match assignment(x) {
            Some(kv) => seq![kv],
            None => Seq::empty(),
        }));
    if b.len() == 0 {
        assert(a + b =~= a);
        assert(assignments(a) + assignments(b) =~= assignments(a));
    } else {
        each_line_is_read_alone(a, b.drop_last(), x);
        assert((a + b).drop_last() =~= a + b.drop_last());
        assert((a + b).last() == b.last());
        assert(assignments(a + b) =~= assignments(a) + assignments(b));
    }
}

/// The first argument that goes by another name now is told of.
pub proof fn the_first_notice_counts(
    a: Seq<Seq<char>>,
    b: Seq<Seq<char>>,
    x: Seq<char>,
    streams: bool,
)
    ensures
        first_notice(a + b, streams) == (if first_notice(a, streams) is Some {
            first_notice(a, streams)
        } else {
            first_notice(b, streams)
        }),
        first_notice(seq![x], streams) == (if x == "add"@ {
            Some(ADD_IS_SEND@)
        } else if x == "lifecycle-status"@ {
            Some(STATUS_IS_PS@)
        } else if x == "--role"@ && streams {
            Some(ROLE_IS_STATUS@)
        } else {
            None
        }),
    decreases a.len(),
{
    let one = seq![x];
    assert(one.drop_first() =~= Seq::<Seq<char>>::empty());
    assert(first_notice(one.drop_first(), streams) is None);
    if a.len() == 0 {
        assert(a + b =~= b);
    } else {
        the_first_notice_counts(a.drop_first(), b, x, streams);
        assert((a + b).drop_first() =~= a.drop_first() + b);
        assert((a + b)[0] == a[0]);
    }
}

/// The first directory in which something was found is taken, and none where nothing was.
pub proof fn first_hits_are_first(dirs: Seq<Seq<char>>, found: Seq<bool>, i: int)
    requires
        dirs.len() == found.len(),
    ensures
        0 <= i < dirs.len() && found[i] && (forall|j: int| 0 <= j < i ==> !found[j]) ==> first_hit(
            dirs,
            found,
        ) == Some(dirs[i]),
        (forall|j: int| 0 <= j < found.len() ==> !found[j]) ==> first_hit(dirs, found) is None,
    decreases dirs.len(),
{
    if dirs.len() > 0 && !found[0] {
        let d = dirs.drop_first();
        let f = found.drop_first();
        first_hits_are_first(d, f, i - 1);
        if 0 <= i < dirs.len() && found[i] && (forall|j: int| 0 <= j < i ==> !found[j]) {
            assert(f[i - 1] == found[i] && d[i - 1] == dirs[i]);
            assert forall|j: int| 0 <= j < i - 1 implies !f[j] by {
                assert(f[j] == found[j + 1]);
            }
        }
        if forall|j: int| 0 <= j < found.len() ==> !found[j] {
            assert forall|j: int| 0 <= j < f.len() implies !f[j] by {
                assert(f[j] == found[j + 1]);
            }
        }
    }
}

/// A line is an assignment exactly where it is neither empty nor a remark and holds a sign of
/// equality; blanks round key and value and quotation marks round the value do not count.
pub proof fn assignments_are_exact(line: Seq<char>, key: Seq<char>, value: Seq<char>)
    requires
        forall|i: int| 0 <= i < key.len() ==> key[i] != '=',
    ensures
        text::trimmed(line) == key + seq!['='] + value && key.len() > 0 && key[0] != '#'
            ==> assignment(line) == Some(
            (
                text::trimmed(key),
                text::strip_both(
                    text::strip_both(text::trimmed(value), text::Class::Only('"')),
                    text::Class::Only('\''),
                ),
            ),
        ),
        text::trimmed(line).len() == 0 ==> assignment(line) is None,
        text::trimmed(line).len() > 0 && text::trimmed(line)[0] == '#' ==> assignment(line) is None,
        text::trimmed(line) == key ==> assignment(line) is None,
{
    text::cuts_are_exact(key, '=', value);
    let t = key + seq!['='] + value;
    if key.len() > 0 {
        assert(t[0] == key[0]);
    }
}

/// A secret shows its first eight characters at most, anything else is shown whole.
pub proof fn only_secrets_are_hidden(key: Seq<char>, value: Seq<char>)
    ensures
        displayed(value, false) == "'"@ + value + "'"@,
        value.len() > 8 ==> displayed(value, true) == "'"@ + value.take(8) + "\u{2026}'"@,
        is_secret(key) <==> text::contains_text(key, "TOKEN"@) || text::contains_text(
            key,
            "SECRET"@,
        ),
{
}

/// References are parted by commas; blanks round each do not count.
pub proof fn references_are_parted(a: Seq<char>, b: Seq<char>)
    requires
        forall|i: int| 0 <= i < a.len() ==> a[i] != ',',
    ensures
        ref_list(a + seq![','] + b) == seq![text::trimmed(a)] + ref_list(b),
        ref_list(a) == seq![text::trimmed(a)],
{
    let s = a + seq![','] + b;
    text::cuts_are_exact(a, ',', b);
    text::char_at_meaning(s, ',');
    text::char_at_meaning(a, ',');
    let k = text::char_at(s, ',')->0;
    assert(text::pieces(s, ',') == seq![s.take(k)] + text::pieces(s.skip(k + 1), ','));
    assert(text::pieces(a, ',') == seq![a]);
    assert(ref_list(s) =~= seq![text::trimmed(a)] + ref_list(b));
    assert(ref_list(a) =~= seq![text::trimmed(a)]);
}

/// Each setting of the nearer file counts before that of the farther one.
pub proof fn nearer_settings_count(local: ConfigModel, global: ConfigModel)
    ensures
        together(local, global).host == (if local.host is Some {
            local.host
        } else {
            global.host
        }),
        together(local, global).instance == (if local.instance is Some {
            local.instance
        } else {
            global.instance
        }),
        together(local, global).token == (if local.token is Some {
            local.token
        } else {
            global.token
        }),
{
}

/// What is told of a variable that is shadowed names it, the file and both values.
pub proof fn shadowed_variables_are_told(
    key: Seq<char>,
    existing: Seq<char>,
    value: Seq<char>,
    path: Seq<char>,
)
    ensures
        text::holds(shadow_text(key, existing, value, path), key),
        text::holds(shadow_text(key, existing, value, path), displayed(existing, is_secret(key))),
        text::holds(shadow_text(key, existing, value, path), displayed(value, is_secret(key))),
        text::holds(shadow_text(key, existing, value, path), path),
{
    let p0 = "(warning) shell $"@;
    let p1 = key;
    let p2 = "="@;
    let p3 = displayed(existing, is_secret(key));
    let p4 = " shadows "@;
    let p5 = displayed(value, is_secret(key));
    let p6 = " from "@;
    let p7 = path;
    let p8 = ". To use the .env value instead: unset "@;
    let p9 = key;
    let p10 = " && eval $(cat "@;
    let p11 = path;
    let p12 = ")"@;
    text::end_is_held(p0, p1);
    text::held_with_more(p0 + p1, p2, p1);
    text::held_with_more(p0 + p1 + p2, p3, p1);
    text::held_with_more(p0 + p1 + p2 + p3, p4, p1);
    text::held_with_more(p0 + p1 + p2 + p3 + p4, p5, p1);
    text::held_with_more(p0 + p1 + p2 + p3 + p4 + p5, p6, p1);
    text::held_with_more(p0 + p1 + p2 + p3 + p4 + p5 + p6, p7, p1);
    text::held_with_more(p0 + p1 + p2 + p3 + p4 + p5 + p6 + p7, p8, p1);
    text::held_with_more(p0 + p1 + p2 + p3 + p4 + p5 + p6 + p7 + p8, p9, p1);
    text::held_with_more(p0 + p1 + p2 + p3 + p4 + p5 + p6 + p7 + p8 + p9, p10, p1);
    text::held_with_more(p0 + p1 + p2 + p3 + p4 + p5 + p6 + p7 + p8 + p9 + p10, p11, p1);
    text::held_with_more(p0 + p1 + p2 + p3 + p4 + p5 + p6 + p7 + p8 + p9 + p10 + p11, p12, p1);
    text::end_is_held(p0 + p1 + p2, p3);
    text::held_with_more(p0 + p1 + p2 + p3, p4, p3);
    text::held_with_more(p0 + p1 + p2 + p3 + p4, p5, p3);
    text::held_with_more(p0 + p1 + p2 + p3 + p4 + p5, p6, p3);
    text::held_with_more(p0 + p1 + p2 + p3 + p4 + p5 + p6, p7, p3);
    text::held_with_more(p0 + p1 + p2 + p3 + p4 + p5 + p6 + p7, p8, p3);
    text::held_with_more(p0 + p1 + p2 + p3 + p4 + p5 + p6 + p7 + p8, p9, p3);
    text::held_with_more(p0 + p1 + p2 + p3 + p4 + p5 + p6 + p7 + p8 + p9, p10, p3);
    text::held_with_more(p0 + p1 + p2 + p3 + p4 + p5 + p6 + p7 + p8 + p9 + p10, p11, p3);
    text::held_with_more(p0 + p1 + p2 + p3 + p4 + p5 + p6 + p7 + p8 + p9 + p10 + p11, p12, p3);
    text::end_is_held(p0 + p1 + p2 + p3 + p4, p5);
    text::held_with_more(p0 + p1 + p2 + p3 + p4 + p5, p6, p5);
    text::held_with_more(p0 + p1 + p2 + p3 + p4 + p5 + p6, p7, p5);
    text::held_with_more(p0 + p1 + p2 + p3 + p4 + p5 + p6 + p7, p8, p5);
    text::held_with_more(p0 + p1 + p2 + p3 + p4 + p5 + p6 + p7 + p8, p9, p5);
    text::held_with_more(p0 + p1 + p2 + p3 + p4 + p5 + p6 + p7 + p8 + p9, p10, p5);
    text::held_with_more(p0 + p1 + p2 + p3 + p4 + p5 + p6 + p7 + p8 + p9 + p10, p11, p5);
    text::held_with_more(p0 + p1 + p2 + p3 + p4 + p5 + p6 + p7 + p8 + p9 + p10 + p11, p12, p5);
    text::end_is_held(p0 + p1 + p2 + p3 + p4 + p5 + p6, p7);
    text::held_with_more(p0 + p1 + p2 + p3 + p4 + p5 + p6 + p7, p8, p7);
    text::held_with_more(p0 + p1 + p2 + p3 + p4 + p5 + p6 + p7 + p8, p9, p7);
    text::held_with_more(p0 + p1 + p2 + p3 + p4 + p5 + p6 + p7 + p8 + p9, p10, p7);
    text::held_with_more(p0 + p1 + p2 + p3 + p4 + p5 + p6 + p7 + p8 + p9 + p10, p11, p7);
    text::held_with_more(p0 + p1 + p2 + p3 + p4 + p5 + p6 + p7 + p8 + p9 + p10 + p11, p12, p7);
}

/// A file that is not there says nothing; one that is says what it says.
pub proof fn missing_files_say_nothing(c: Option<Config>)
    ensures
        c is None ==> said(c).host is None && said(c).instance is None && said(c).token is None,
        c matches Some(x) ==> said(c) == x@,
{
}

} // verus!
