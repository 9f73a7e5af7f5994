//! The `key = value` configuration format: settings and scheduled tasks.
use vstd::prelude::*;
use crate::lc_provider::{MockProvider, OpenAiProvider};
use crate::lc_scheduler::ScheduledTask;
use crate::text::{
    is_ws, lemma_first_line, lemma_split_once_char, strip_cr, strip_end_char, strip_start_char, trim_end,
    chars_of, lines, lines_chars, push_str, split, split_chars, split_once, split_once_chars,
    starts_with, starts_with_chars, string_of, trim, trim_char, trim_char_chars, trim_chars,
    trim_start, trim_start_chars,
};

verus! {

/// The first line whose text, after leading white space, starts with
/// `target`.
pub open spec fn first_line_starting(ls: Seq<Seq<char>>, target: Seq<char>) -> Option<Seq<char>>
    decreases ls.len(),
{
    if ls.len() == 0 {
        None
    } else if starts_with(trim_start(ls[0]), target) {
        Some(ls[0])
    } else {
        first_line_starting(ls.drop_first(), target)
    }
}

/// The value of `key` in a configuration text: on the first line that
/// starts with `key =`, the text after the first `=`, trimmed and with
/// surrounding double quotes removed.
pub open spec fn toml_value(src: Seq<char>, key: Seq<char>) -> Option<Seq<char>> {
    match first_line_starting(lines(src), key + " ="@) {
        Some(line) => match split_once(line, "="@) {
            Some(parts) => Some(trim_char(trim(parts.1), '"')),
            None => None,
        },
        None => None,
    }
}

/// On a configuration line `key = "value"` the value read for the key is
/// `value`, whether the line stands alone or starts a longer text: the
/// text after the first `=`, trimmed and unquoted. Here the key does not
/// start with white space and holds no `=` or line break, and the value
/// holds no double quote or line break but may hold `=`.
pub proof fn lemma_quoted_value_is_read(key: Seq<char>, value: Seq<char>, rest: Seq<char>)
    requires
        key.len() > 0,
        !is_ws(key[0]),
        forall|i: int| 0 <= i < key.len() ==> key[i] != '=' && key[i] != '\n',
        forall|i: int| 0 <= i < value.len() ==> value[i] != '"' && value[i] != '\n',
    ensures
        toml_value(key + " = \""@ + value + "\""@, key) == Some(value),
        toml_value(key + " = \""@ + value + "\""@ + "\n"@ + rest, key) == Some(value),
{
    reveal_strlit(" = \"");
    reveal_strlit("\"");
    reveal_strlit("\n");
    reveal_strlit(" =");
    reveal_strlit("=");
    assert("="@ =~= seq!['=']);
    assert("\n"@ =~= seq!['\n']);
    let q = "\""@;
    let line = key + " = \""@ + value + q;
    let n = key.len() as int;
    assert(line[n] == ' ' && line[n + 1] == '=' && line[n + 2] == ' ' && line[n + 3] == '"');
    assert(line.last() == '"');
    assert forall|i: int| 0 <= i < line.len() implies line[i] != '\n' by {
        if i < n {
            assert(line[i] == key[i]);
        } else if n + 3 < i < line.len() - 1 {
            assert(line[i] == value[i - n - 4]);
        }
    }
    lemma_first_line(line, rest);
    assert(strip_cr(line) == line);
    assert(trim_start(line) == line);
    assert(starts_with(line, key + " ="@)) by {
        assert(line.subrange(0, n + 2) =~= key + " ="@);
    }
    assert(first_line_starting(lines(line), key + " ="@) == Some(line));
    assert(first_line_starting(lines(line + "\n"@ + rest), key + " ="@) == Some(line)) by {
        assert(line + "\n"@ + rest =~= line + seq!['\n'] + rest);
    }
    assert forall|i: int| 0 <= i < n + 1 implies line[i] != '=' by {
        if i < n {
            assert(line[i] == key[i]);
        }
    }
    lemma_split_once_char(line, '=', n + 1);
    let after = line.subrange(n + 2, line.len() as int);
    assert(after =~= seq![' '] + q + value + q);
    let quoted = q + value + q;
    assert(is_ws(' '));
    assert(!is_ws('"'));
    assert(seq![' '] + quoted =~= after);
    assert(after.drop_first() =~= quoted);
    assert(trim_start(after) == trim_start(quoted));
    assert(trim_start(quoted) == quoted);
    assert(trim_end(quoted) == quoted);
    assert(trim(after) == quoted);
    assert(quoted.drop_first() =~= value + q);
    assert(strip_start_char(quoted, '"') == strip_start_char(value + q, '"'));
    if value.len() > 0 {
        assert((value + q)[0] == value[0]);
        assert(strip_start_char(value + q, '"') == value + q);
        assert((value + q).drop_last() =~= value);
        assert(strip_end_char(value + q, '"') == strip_end_char(value, '"'));
        assert(value.last() != '"');
        assert(strip_end_char(value, '"') == value);
    } else {
        assert(value + q =~= q);
        assert(q.drop_first() =~= Seq::<char>::empty());
        assert(strip_start_char(q, '"') == strip_start_char(Seq::<char>::empty(), '"'));
        assert(strip_end_char(Seq::<char>::empty(), '"') =~= value);
    }
}

/// The value of `key`, or `default` when there is none.
pub open spec fn value_or(src: Seq<char>, key: Seq<char>, default: Seq<char>) -> Seq<char> {
    match toml_value(src, key) {
        Some(v) => v,
        None => default,
    }
}

/// The value of `key` when there is one and it is not empty.
pub open spec fn nonempty_value(src: Seq<char>, key: Seq<char>) -> Option<Seq<char>> {
    match toml_value(src, key) {
        Some(v) => if v.len() > 0 {
            Some(v)
        } else {
            None
        },
        None => None,
    }
}

/// The value of `key` in a configuration text.
pub fn read_toml_value(src: &str, key: &str) -> (r: Option<String>)
    ensures
        r matches Some(v) ==> toml_value(src@, key@) == Some(v@),
        r is None ==> toml_value(src@, key@) is None,
{
    let cs = chars_of(src);
    let mut target = chars_of(key);
    push_str(&mut target, " =");
    let eq = chars_of("=");
    let ls = lines_chars(cs.as_slice());
    let ghost lv = lines(src@);
    let n = ls.len();
    let mut i: usize = 0;
    assert(lv.subrange(0, lv.len() as int) == lv);
    while i < n
        invariant
            n == ls@.len(),
            n == lv.len(),
            lv == lines(src@),
            i <= n,
            target@ == key@ + " ="@,
            eq@ == "="@,
            forall|k: int| 0 <= k < n ==> #[trigger] ls@[k]@ == lv[k],
            first_line_starting(lv, target@) == first_line_starting(
                lv.subrange(i as int, n as int),
                target@,
            ),
        decreases n - i,
    {
        let ghost rest = lv.subrange(i as int, n as int);
        assert(rest[0] == ls@[i as int]@);
        assert(rest.drop_first() == lv.subrange(i + 1, n as int));
        let t = trim_start_chars(ls[i].as_slice());
        if starts_with_chars(t.as_slice(), target.as_slice()) {
            assert(first_line_starting(lv, target@) == Some(ls@[i as int]@));
            return match split_once_chars(ls[i].as_slice(), eq.as_slice()) {
                Some(parts) => {
                    let v = trim_chars(parts.1.as_slice());
                    let w = trim_char_chars(v.as_slice(), '"');
                    Some(string_of(w.as_slice()))
                },
                None => None,
            };
        }
        i += 1;
    }
    None
}

fn value_or_default(src: &str, key: &str, default: &str) -> (r: String)
    ensures
        r@ == value_or(src@, key@, default@),
{
    match read_toml_value(src, key) {
        Some(v) => v,
        None => String::from_str(default),
    }
}

fn nonempty_value_of(src: &str, key: &str) -> (r: Option<String>)
    ensures
        r matches Some(v) ==> nonempty_value(src@, key@) == Some(v@),
        r is None ==> nonempty_value(src@, key@) is None,
{
    match read_toml_value(src, key) {
        Some(v) => if v.as_str().unicode_len() > 0 {
            Some(v)
        } else {
            None
        },
        None => None,
    }
}

/// The program's settings.
#[derive(Debug, Clone)]
pub struct Config {
    pub api_bind: String,
    pub db_path: String,
    pub encryption_key: String,
    pub openai_api_key: Option<String>,
    pub openai_model: String,
    pub telegram_bot_token: Option<String>,
    pub telegram_chat_id: Option<String>,
    pub scheduler_tasks_file: String,
}

/// An optional string as plain values.
pub open spec fn opt_view(o: Option<String>) -> Option<Seq<char>> {
    match o {
        Some(s) => Some(s@),
        None => None,
    }
}

/// The settings a configuration text gives, with their defaults.
pub fn config_from_toml(src: &str) -> (c: Config)
    ensures
        c.api_bind@ == value_or(src@, "api_bind"@, "127.0.0.1:8080"@),
        c.db_path@ == value_or(src@, "db_path"@, "lightclaw.db"@),
        c.encryption_key@ == value_or(src@, "encryption_key"@, "dev-key"@),
        opt_view(c.openai_api_key) == nonempty_value(src@, "openai_api_key"@),
        c.openai_model@ == value_or(src@, "openai_model"@, "gpt-4o-mini"@),
        opt_view(c.telegram_bot_token) == nonempty_value(src@, "telegram_bot_token"@),
        opt_view(c.telegram_chat_id) == nonempty_value(src@, "telegram_chat_id"@),
        c.scheduler_tasks_file@ == value_or(src@, "scheduler_tasks_file"@, "config/scheduler.toml"@),
{
    Config {
        api_bind: value_or_default(src, "api_bind", "127.0.0.1:8080"),
        db_path: value_or_default(src, "db_path", "lightclaw.db"),
        encryption_key: value_or_default(src, "encryption_key", "dev-key"),
        openai_api_key: nonempty_value_of(src, "openai_api_key"),
        openai_model: value_or_default(src, "openai_model", "gpt-4o-mini"),
        telegram_bot_token: nonempty_value_of(src, "telegram_bot_token"),
        telegram_chat_id: nonempty_value_of(src, "telegram_chat_id"),
        scheduler_tasks_file: value_or_default(src, "scheduler_tasks_file", "config/scheduler.toml"),
    }
}

/// The task a `[[tasks]]` section describes, with its defaults: name
/// `task`, cron `* * * * *`, empty manifest path and capability.
pub open spec fn task_of(section: Seq<char>) -> (Seq<char>, Seq<char>, Seq<char>, Seq<char>) {
    (
        value_or(section, "name"@, "task"@),
        value_or(section, "cron"@, "* * * * *"@),
        value_or(section, "plugin_manifest"@, Seq::empty()),
        value_or(section, "capability"@, Seq::empty()),
    )
}

/// A task as plain values.
pub open spec fn task_view(t: ScheduledTask) -> (Seq<char>, Seq<char>, Seq<char>, Seq<char>) {
    (t.name@, t.cron@, t.plugin_manifest@, t.capability@)
}

/// The sections after each `[[tasks]]` marker.
pub open spec fn task_sections(src: Seq<char>) -> Seq<Seq<char>> {
    split(src, "[[tasks]]"@).drop_first()
}

/// The scheduled tasks of a task file, one per `[[tasks]]` section.
pub fn parse_tasks(src: &str) -> (r: Vec<ScheduledTask>)
    ensures
        r@.map_values(|t: ScheduledTask| task_view(t)) == task_sections(src@).map_values(
            |s: Seq<char>| task_of(s),
        ),
{
    let cs = chars_of(src);
    let marker = chars_of("[[tasks]]");
    proof {
        reveal_strlit("[[tasks]]");
        crate::text::lemma_split_scan_nonempty(src@, marker@, 0, 0);
    }
    let sections = split_chars(cs.as_slice(), marker.as_slice());
    let ghost sv = task_sections(src@);
    let n = sections.len();
    let mut tasks: Vec<ScheduledTask> = Vec::new();
    let mut i: usize = 1;
    while i < n
        invariant
            1 <= i <= n,
            n == sections@.len(),
            sv.len() + 1 == n,
            sv == task_sections(src@),
            forall|k: int| 1 <= k < n ==> #[trigger] sections@[k]@ == sv[k - 1],
            tasks@.map_values(|t: ScheduledTask| task_view(t)) == sv.take(i - 1).map_values(
                |s: Seq<char>| task_of(s),
            ),
        decreases n - i,
    {
        let section = string_of(sections[i].as_slice());
        let s = section.as_str();
        let task = ScheduledTask {
            name: value_or_default(s, "name", "task"),
            cron: value_or_default(s, "cron", "* * * * *"),
            plugin_manifest: value_or_default(s, "plugin_manifest", ""),
            capability: value_or_default(s, "capability", ""),
        };
        proof {
            reveal_strlit("");
        }
        let ghost before = tasks@.map_values(|t: ScheduledTask| task_view(t));
        tasks.push(task);
        assert(sv.take(i as int) == sv.take(i - 1).push(sv[i - 1]));
        assert(""@ == Seq::<char>::empty());
        assert(task_view(task) == task_of(sv[i - 1]));
        assert(sv.take(i as int).map_values(|s: Seq<char>| task_of(s)) == sv.take(i - 1).map_values(
            |s: Seq<char>| task_of(s),
        ).push(task_of(sv[i - 1])));
        assert(tasks@.map_values(|t: ScheduledTask| task_view(t)) == before.push(task_view(task)));
        i += 1;
    }
    assert(sv.take(n - 1) == sv);
    tasks
}

/// The backend the program talks to.
pub enum ProviderChoice {
    OpenAi(OpenAiProvider),
    Mock(MockProvider),
}

/// The backend a configuration asks for: OpenAI with the configured key
/// and model when a key is configured, the echoing mock otherwise.
pub fn choose_provider(config: &Config) -> (r: ProviderChoice)
    ensures
        match config.openai_api_key {
            Some(key) => r matches ProviderChoice::OpenAi(p) && p.api_key@ == key@ && p.model@
                == config.openai_model@,
            None => r is Mock,
        },
{
    match &config.openai_api_key {
        Some(key) => ProviderChoice::OpenAi(
            OpenAiProvider { api_key: key.clone(), model: config.openai_model.clone() },
        ),
        None => ProviderChoice::Mock(MockProvider),
    }
}

} // verus!
