//! The legacy `logrotate.conf` syntax, read one line at a time.
//!
//! A [`LegacyParser`] is fed the lines of one file in order. A line that
//! includes other files is answered with the glob pattern to read; the
//! blocks read from those files are handed back with
//! [`LegacyParser::add_included`]. [`LegacyParser::finish`] gives the
//! blocks with the global settings filling in what each leaves unset.
use vstd::prelude::*;
use crate::config::{
    apply_global, empty_config, entry_views, merge_all, opt_view, size_bytes,
    size_fits, parse_size_chars, ConfigView, EntryView, LogConfig, LogEntry,
};
use crate::paths::{join_path, join_path_chars};
use crate::text::{
    append_chars, chars_to_string, eq_str, split_lines, split_lines_chars, join_with, join_words_from, parse_u32_chars,
    parse_unsigned, split_ws, split_ws_chars, starts_with, starts_with_str, str_chars,
    string_views, sub_chars, trim, trim_chars, trim_quote_chars, trim_quotes, views,
};

verus! {

/// The script that a `postrotate` or `prerotate` line opens.
#[derive(Clone, Copy, Debug, PartialEq, Eq, Structural)]
pub enum ScriptKind {
    Post,
    Pre,
}

/// The parser's state after the lines read so far.
pub struct ParserView {
    pub base_dir: Seq<char>,
    pub global: ConfigView,
    pub entries: Seq<EntryView>,
    pub current_paths: Option<Seq<Seq<char>>>,
    pub current: ConfigView,
    pub script: Option<ScriptKind>,
    pub body: Seq<char>,
}

/// The value after a directive: its remaining words joined by spaces.
pub open spec fn directive_value(words: Seq<Seq<char>>) -> Option<Seq<char>> {
    if words.len() > 1 {
        Some(join_with(words.skip(1), seq![' ']))
    } else {
        None
    }
}

/// A number as `str::parse::<u32>().ok()` gives it.
pub open spec fn parse_u32_opt(v: Seq<char>) -> Option<u32> {
    match parse_unsigned(v, u32::MAX as nat) {
        Some(n) => Some(n as u32),
        None => None,
    }
}

pub open spec fn is_size_directive(d: Seq<char>) -> bool {
    d == "size"@ || d == "minsize"@ || d == "maxsize"@
}

/// A directive whose size value does not fit in a `u64`: multiplying it
/// out overflows there, which stops a debug build with a panic.
pub open spec fn size_overflows(words: Seq<Seq<char>>) -> bool {
    words.len() > 1 && is_size_directive(words[0]) && size_bytes(
        join_with(words.skip(1), seq![' ']),
    ) > u64::MAX
}

/// The settings after one directive line, split into words.
pub open spec fn apply_directive(cfg: ConfigView, words: Seq<Seq<char>>) -> ConfigView
    recommends
        words.len() > 0,
{
    let d = words[0];
    let value = directive_value(words);
    if d == "rotate"@ {
        match value {
            Some(v) => ConfigView { rotate: parse_u32_opt(v), ..cfg },
            None => cfg,
        }
    } else if d == "daily"@ || d == "weekly"@ || d == "monthly"@ || d == "yearly"@ || d
        == "hourly"@ {
        ConfigView { frequency: Some(d), ..cfg }
    } else if d == "size"@ {
        match value {
            Some(v) => ConfigView { size: Some(size_bytes(v) as u64), ..cfg },
            None => cfg,
        }
    } else if d == "minsize"@ {
        match value {
            Some(v) => ConfigView { minsize: Some(size_bytes(v) as u64), ..cfg },
            None => cfg,
        }
    } else if d == "maxsize"@ {
        match value {
            Some(v) => ConfigView { maxsize: Some(size_bytes(v) as u64), ..cfg },
            None => cfg,
        }
    } else if d == "maxage"@ {
        match value {
            Some(v) => ConfigView { maxage: parse_u32_opt(v), ..cfg },
            None => cfg,
        }
    } else if d == "compress"@ {
        ConfigView { compress: Some(true), ..cfg }
    } else if d == "nocompress"@ {
        ConfigView { compress: Some(false), ..cfg }
    } else if d == "delaycompress"@ {
        ConfigView { delaycompress: Some(true), ..cfg }
    } else if d == "nodelaycompress"@ {
        ConfigView { delaycompress: Some(false), ..cfg }
    } else if d == "copytruncate"@ {
        ConfigView { copytruncate: Some(true), ..cfg }
    } else if d == "nocopytruncate"@ {
        ConfigView { copytruncate: Some(false), ..cfg }
    } else if d == "create"@ {
        match value {
            Some(v) => ConfigView { create: Some(v), ..cfg },
            None => ConfigView { create: Some(seq![]), ..cfg },
        }
    } else if d == "nocreate"@ {
        ConfigView { create: None, ..cfg }
    } else if d == "missingok"@ {
        ConfigView { missingok: Some(true), ..cfg }
    } else if d == "nomissingok"@ {
        ConfigView { missingok: Some(false), ..cfg }
    } else if d == "notifempty"@ {
        ConfigView { notifempty: Some(true), ..cfg }
    } else if d == "ifempty"@ {
        ConfigView { notifempty: Some(false), ..cfg }
    } else if d == "dateext"@ {
        ConfigView { dateext: Some(true), ..cfg }
    } else if d == "nodateext"@ {
        ConfigView { dateext: Some(false), ..cfg }
    } else if d == "dateformat"@ {
        ConfigView { dateformat: value, ..cfg }
    } else if d == "olddir"@ {
        ConfigView { olddir: value, ..cfg }
    } else if d == "noolddir"@ {
        ConfigView { olddir: None, ..cfg }
    } else if d == "sharedscripts"@ {
        ConfigView { sharedscripts: Some(true), ..cfg }
    } else if d == "nosharedscripts"@ {
        ConfigView { sharedscripts: Some(false), ..cfg }
    } else if d == "mail"@ {
        ConfigView { mail: value, ..cfg }
    } else {
        cfg
    }
}

/// The settings with a finished script stored.
pub open spec fn set_script(cfg: ConfigView, kind: ScriptKind, text: Seq<char>) -> ConfigView {
    match kind {
        ScriptKind::Post => ConfigView { postrotate: Some(text), ..cfg },
        ScriptKind::Pre => ConfigView { prerotate: Some(text), ..cfg },
    }
}

/// The files that an `include` line names, as a glob pattern: the text
/// after `include `, trimmed and without surrounding quotes, taken
/// relative to the directory of the file being read unless absolute.
pub open spec fn include_pattern(base_dir: Seq<char>, line: Seq<char>) -> Seq<char> {
    join_path(base_dir, trim_quotes(trim(line.skip(8))))
}

/// The paths that a line opening a block names: the words before the
/// `{`, each without surrounding quotes.
pub open spec fn block_paths(line: Seq<char>) -> Seq<Seq<char>> {
    split_ws(trim(line.drop_last())).map_values(|w: Seq<char>| trim_quotes(w))
}

/// What one line does to the parser, and the glob pattern of the files
/// to include where the line is an `include`.
pub open spec fn step(p: ParserView, raw: Seq<char>) -> (ParserView, Option<Seq<char>>) {
    let line = trim(raw);
    if line.len() == 0 || line[0] == '#' {
        (p, None)
    } else if p.script is Some {
        if line == "endscript"@ {
            let text = trim(p.body);
            let q = if p.current_paths is Some {
                ParserView { current: set_script(p.current, p.script->0, text), ..p }
            } else {
                ParserView { global: set_script(p.global, p.script->0, text), ..p }
            };
            (ParserView { script: None, body: seq![], ..q }, None)
        } else {
            (ParserView { body: p.body + raw + seq!['\n'], ..p }, None)
        }
    } else if starts_with(line, "include "@) {
        (p, Some(include_pattern(p.base_dir, line)))
    } else if line.last() == '{' {
        (ParserView { current_paths: Some(block_paths(line)), current: empty_config(), ..p }, None)
    } else if line == "}"@ {
        match p.current_paths {
            Some(ps) => (
                ParserView {
                    entries: p.entries.push(EntryView { paths: ps, config: p.current }),
                    current_paths: None,
                    ..p
                },
                None,
            ),
            None => (p, None),
        }
    } else if line == "postrotate"@ {
        (ParserView { script: Some(ScriptKind::Post), body: seq![], ..p }, None)
    } else if line == "prerotate"@ {
        (ParserView { script: Some(ScriptKind::Pre), body: seq![], ..p }, None)
    } else {
        let words = split_ws(line);
        if words.len() == 0 {
            (p, None)
        } else if p.current_paths is Some {
            (ParserView { current: apply_directive(p.current, words), ..p }, None)
        } else {
            (ParserView { global: apply_directive(p.global, words), ..p }, None)
        }
    }
}

/// Whether the line is a directive line (neither blank, a comment, part of
/// a script, an include, nor a block's brace or a script's start).
pub open spec fn is_directive_line(p: ParserView, raw: Seq<char>) -> bool {
    let line = trim(raw);
    &&& !(line.len() == 0 || line[0] == '#')
    &&& p.script is None
    &&& !starts_with(line, "include "@)
    &&& line.last() != '{'
    &&& line != "}"@
    &&& line != "postrotate"@
    &&& line != "prerotate"@
}

/// Whether the line can be read without a size value overflowing.
pub open spec fn line_fits(p: ParserView, raw: Seq<char>) -> bool {
    is_directive_line(p, raw) ==> !size_overflows(split_ws(trim(raw)))
}

/// The state before the first line of a file in directory `base_dir`.
pub open spec fn initial(base_dir: Seq<char>) -> ParserView {
    ParserView {
        base_dir,
        global: empty_config(),
        entries: seq![],
        current_paths: None,
        current: empty_config(),
        script: None,
        body: seq![],
    }
}

/// The lines of a configuration file, as `str::lines` splits them.
pub fn config_lines(content: &str) -> (r: Vec<String>)
    ensures
        string_views(r@) == split_lines(content@),
{
    let chars = str_chars(content);
    let lines = split_lines_chars(&chars);
    let mut out: Vec<String> = Vec::new();
    for i in 0..lines.len()
        invariant
            string_views(out@) == views(lines@).take(i as int),
    {
        let ghost before = out@;
        let line = chars_to_string(&lines[i]);
        out.push(line);
        assert(string_views(out@) =~= string_views(before).push(line@));
        assert(views(lines@).take(i + 1) =~= views(lines@).take(i as int).push(lines@[i as int]@));
    }
    assert(views(lines@).take(lines.len() as int) =~= views(lines@));
    out
}

/// Reads a legacy configuration file line by line.
pub struct LegacyParser {
    base_dir: Vec<char>,
    global: LogConfig,
    entries: Vec<LogEntry>,
    current_paths: Option<Vec<String>>,
    current_config: LogConfig,
    script: Option<ScriptKind>,
    script_body: Vec<char>,
}

pub open spec fn opt_paths_view(o: Option<Vec<String>>) -> Option<Seq<Seq<char>>> {
    match o {
        Some(v) => Some(string_views(v@)),
        None => None,
    }
}

impl View for LegacyParser {
    type V = ParserView;

    closed spec fn view(&self) -> ParserView {
        ParserView {
            base_dir: self.base_dir@,
            global: self.global@,
            entries: entry_views(self.entries@),
            current_paths: opt_paths_view(self.current_paths),
            current: self.current_config@,
            script: self.script,
            body: self.script_body@,
        }
    }
}

fn opt_string(v: Option<Vec<char>>) -> (r: Option<String>)
    ensures
        opt_view(r) == match v {
            Some(c) => Some(c@),
            None => None,
        },
{
    match v {
        Some(c) => Some(chars_to_string(&c)),
        None => None,
    }
}

/// The settings after one directive line, split into words.
fn apply_directive_exec(cfg: &mut LogConfig, words: &Vec<Vec<char>>)
    requires
        words.len() > 0,
        !size_overflows(views(words@)),
    ensures
        final(cfg)@ == apply_directive(old(cfg)@, views(words@)),
{
    let ghost ws = views(words@);
    let d = &words[0];
    assert(ws[0] == d@);
    let value: Option<Vec<char>> = if words.len() > 1 {
        Some(join_words_from(words, 1))
    } else {
        None
    };
    assert(match value {
        Some(v) => directive_value(ws) == Some(v@),
        None => directive_value(ws) is None,
    });
    if eq_str(d, "rotate") {
        if let Some(v) = &value {
            cfg.rotate = parse_u32_chars(v);
        }
    } else if eq_str(d, "daily") || eq_str(d, "weekly") || eq_str(d, "monthly") || eq_str(
        d,
        "yearly",
    ) || eq_str(d, "hourly") {
        cfg.frequency = Some(chars_to_string(d));
    } else if eq_str(d, "size") {
        if let Some(v) = &value {
            cfg.size = Some(parse_size_chars(v));
        }
    } else if eq_str(d, "minsize") {
        if let Some(v) = &value {
            cfg.minsize = Some(parse_size_chars(v));
        }
    } else if eq_str(d, "maxsize") {
        if let Some(v) = &value {
            cfg.maxsize = Some(parse_size_chars(v));
        }
    } else if eq_str(d, "maxage") {
        if let Some(v) = &value {
            cfg.maxage = parse_u32_chars(v);
        }
    } else if eq_str(d, "compress") {
        cfg.compress = Some(true);
    } else if eq_str(d, "nocompress") {
        cfg.compress = Some(false);
    } else if eq_str(d, "delaycompress") {
        cfg.delaycompress = Some(true);
    } else if eq_str(d, "nodelaycompress") {
        cfg.delaycompress = Some(false);
    } else if eq_str(d, "copytruncate") {
        cfg.copytruncate = Some(true);
    } else if eq_str(d, "nocopytruncate") {
        cfg.copytruncate = Some(false);
    } else if eq_str(d, "create") {
        cfg.create = match value {
            Some(v) => Some(chars_to_string(&v)),
            None => Some(String::new()),
        };
    } else if eq_str(d, "nocreate") {
        cfg.create = None;
    } else if eq_str(d, "missingok") {
        cfg.missingok = Some(true);
    } else if eq_str(d, "nomissingok") {
        cfg.missingok = Some(false);
    } else if eq_str(d, "notifempty") {
        cfg.notifempty = Some(true);
    } else if eq_str(d, "ifempty") {
        cfg.notifempty = Some(false);
    } else if eq_str(d, "dateext") {
        cfg.dateext = Some(true);
    } else if eq_str(d, "nodateext") {
        cfg.dateext = Some(false);
    } else if eq_str(d, "dateformat") {
        cfg.dateformat = opt_string(value);
    } else if eq_str(d, "olddir") {
        cfg.olddir = opt_string(value);
    } else if eq_str(d, "noolddir") {
        cfg.olddir = None;
    } else if eq_str(d, "sharedscripts") {
        cfg.sharedscripts = Some(true);
    } else if eq_str(d, "nosharedscripts") {
        cfg.sharedscripts = Some(false);
    } else if eq_str(d, "mail") {
        cfg.mail = opt_string(value);
    }
}

impl LegacyParser {
    /// A parser for a file in directory `base_dir` (`""` for the current
    /// directory), before its first line.
    pub fn new(base_dir: &str) -> (r: LegacyParser)
        ensures
            r@ == initial(base_dir@),
    {
        let r = LegacyParser {
            base_dir: str_chars(base_dir),
            global: LogConfig::default(),
            entries: Vec::new(),
            current_paths: None,
            current_config: LogConfig::default(),
            script: None,
            script_body: Vec::new(),
        };
        assert(entry_views(r.entries@) =~= Seq::<EntryView>::empty());
        assert(r.script_body@ =~= Seq::<char>::empty());
        r
    }

    /// Whether `raw_line` can be read in this state: false only for a
    /// `size`, `minsize` or `maxsize` directive whose value does not fit
    /// in a `u64`.
    pub fn line_fits(&self, raw_line: &str) -> (r: bool)
        ensures
            r == line_fits(self@, raw_line@),
    {
        let raw = str_chars(raw_line);
        let line = trim_chars(&raw);
        if !self.is_directive_line(&line) {
            return true;
        }
        let words = split_ws_chars(&line);
        if words.len() > 1 {
            let d = &words[0];
            assert(views(words@)[0] == d@);
            if eq_str(d, "size") || eq_str(d, "minsize") || eq_str(d, "maxsize") {
                let v = join_words_from(&words, 1);
                return size_fits(&v);
            }
        }
        true
    }

    fn is_directive_line(&self, line: &Vec<char>) -> (r: bool)
        ensures
            r == ({
                let l = line@;
                &&& !(l.len() == 0 || l[0] == '#')
                &&& self.script is None
                &&& !starts_with(l, "include "@)
                &&& l.last() != '{'
                &&& l != "}"@
                &&& l != "postrotate"@
                &&& l != "prerotate"@
            }),
    {
        if line.len() == 0 || line[0] == '#' {
            return false;
        }
        self.script.is_none() && !starts_with_str(line, "include ") && line[line.len() - 1] != '{'
            && !eq_str(line, "}") && !eq_str(line, "postrotate") && !eq_str(line, "prerotate")
    }

    /// Reads one line (without its line ending). Returns the glob pattern
    /// of the files to include where the line is an `include`.
    pub fn feed_line(&mut self, raw_line: &str) -> (r: Option<String>)
        requires
            line_fits(old(self)@, raw_line@),
        ensures
            (final(self)@, opt_view(r)) == step(old(self)@, raw_line@),
    {
        let raw = str_chars(raw_line);
        let line = trim_chars(&raw);
        if line.len() == 0 || line[0] == '#' {
            return None;
        }
        if let Some(kind) = self.script {
            if eq_str(&line, "endscript") {
                let text = chars_to_string(&trim_chars(&self.script_body));
                if self.current_paths.is_some() {
                    match kind {
                        ScriptKind::Post => self.current_config.postrotate = Some(text),
                        ScriptKind::Pre => self.current_config.prerotate = Some(text),
                    }
                } else {
                    match kind {
                        ScriptKind::Post => self.global.postrotate = Some(text),
                        ScriptKind::Pre => self.global.prerotate = Some(text),
                    }
                }
                self.script = None;
                self.script_body = Vec::new();
                assert(self.script_body@ =~= Seq::<char>::empty());
            } else {
                let ghost before = self.script_body@;
                append_chars(&mut self.script_body, &raw);
                self.script_body.push('\n');
                assert(self.script_body@ =~= before + raw@ + seq!['\n']);
            }
            return None;
        }
        if starts_with_str(&line, "include ") {
            proof {
                reveal_strlit("include ");
            }
            let rest = sub_chars(&line, 8, line.len());
            assert(rest@ == line@.skip(8));
            let target = trim_quote_chars(&trim_chars(&rest));
            let pattern = join_path_chars(&self.base_dir, &target);
            return Some(chars_to_string(&pattern));
        }
        let n = line.len();
        if line[n - 1] == '{' {
            let inner = trim_chars(&sub_chars(&line, 0, n - 1));
            assert(line@.subrange(0, n - 1) == line@.drop_last());
            let words = split_ws_chars(&inner);
            let mut paths: Vec<String> = Vec::new();
            for i in 0..words.len()
                invariant
                    n == line@.len() > 0,
                    views(words@) == split_ws(trim(line@.drop_last())),
                    string_views(paths@) == views(words@).take(i as int).map_values(
                        |w: Seq<char>| trim_quotes(w),
                    ),
            {
                let t = trim_quote_chars(&words[i]);
                let ghost before = paths@;
                paths.push(chars_to_string(&t));
                assert(string_views(paths@) =~= views(words@).take(i + 1).map_values(
                    |w: Seq<char>| trim_quotes(w),
                )) by {
                    assert(string_views(paths@) =~= string_views(before).push(t@));
                    assert(views(words@)[i as int] == words@[i as int]@);
                }
            }
            assert(views(words@).take(words.len() as int) =~= views(words@));
            self.current_paths = Some(paths);
            self.current_config = LogConfig::default();
            return None;
        }
        if eq_str(&line, "}") {
            if let Some(paths) = self.current_paths.take() {
                let entry = LogEntry { paths, config: self.current_config.copy() };
                let ghost before = self.entries@;
                self.entries.push(entry);
                assert(entry_views(self.entries@) =~= entry_views(before).push(entry@));
            }
            return None;
        }
        if eq_str(&line, "postrotate") {
            self.script = Some(ScriptKind::Post);
            self.script_body = Vec::new();
            assert(self.script_body@ =~= Seq::<char>::empty());
            return None;
        }
        if eq_str(&line, "prerotate") {
            self.script = Some(ScriptKind::Pre);
            self.script_body = Vec::new();
            assert(self.script_body@ =~= Seq::<char>::empty());
            return None;
        }
        let words = split_ws_chars(&line);
        if words.len() == 0 {
            return None;
        }
        if self.current_paths.is_some() {
            apply_directive_exec(&mut self.current_config, &words);
        } else {
            apply_directive_exec(&mut self.global, &words);
        }
        None
    }

    /// Adds the blocks read from an included file, after those read so far.
    pub fn add_included(&mut self, included: Vec<LogEntry>)
        ensures
            final(self)@ == (ParserView {
                entries: old(self)@.entries + entry_views(included@),
                ..old(self)@
            }),
    {
        let ghost start = entry_views(self.entries@);
        let ghost added = entry_views(included@);
        let mut included = included;
        self.entries.append(&mut included);
        assert(entry_views(self.entries@) =~= start + added);
    }

    /// The blocks read, in order, each with the global settings filling in
    /// what it leaves unset. A block that was never closed is left out.
    pub fn finish(self) -> (r: Vec<LogEntry>)
        ensures
            entry_views(r@) == merge_all(self@.entries, self@.global),
    {
        apply_global(&self.entries, &self.global)
    }
}

/// Blank lines and comments change nothing.
pub proof fn law_blank_and_comment_lines_ignored(p: ParserView, raw: Seq<char>)
    requires
        trim(raw).len() == 0 || trim(raw)[0] == '#',
    ensures
        step(p, raw) == (p, None::<Seq<char>>),
{
}

/// The blocks read so far are never changed by a later line: a line adds
/// at most one block, at the end, and the directory of the file stays.
pub proof fn law_blocks_only_appended(p: ParserView, raw: Seq<char>)
    ensures
        step(p, raw).0.entries.len() <= p.entries.len() + 1,
        step(p, raw).0.entries.take(p.entries.len() as int) == p.entries,
        step(p, raw).0.base_dir == p.base_dir,
{
    let q = step(p, raw).0;
    assert(q.entries.take(p.entries.len() as int) =~= p.entries);
}

/// A closing brace ends the open block: the block, with its paths and the
/// settings given inside it, is added after those read before.
pub proof fn law_closing_brace_adds_block(p: ParserView, raw: Seq<char>)
    requires
        trim(raw) == "}"@,
        p.script is None,
        p.current_paths is Some,
    ensures
        step(p, raw).0.entries == p.entries.push(
            EntryView { paths: p.current_paths->0, config: p.current },
        ),
        step(p, raw).0.current_paths is None,
        step(p, raw).0.global == p.global,
{
    reveal_strlit("}");
    reveal_strlit("include ");
    assert(!starts_with(trim(raw), "include "@));
}

/// A directive inside a block changes only that block's settings, and one
/// outside every block only the global settings.
pub proof fn law_directives_stay_in_scope(p: ParserView, raw: Seq<char>)
    requires
        is_directive_line(p, raw),
    ensures
        p.current_paths is Some ==> step(p, raw).0.global == p.global,
        p.current_paths is None ==> step(p, raw).0.current == p.current,
        step(p, raw).0.entries == p.entries,
        step(p, raw).1 is None,
{
}

// ---------------------------------------------------------------- whole files

/// Whether a line is blank or a comment once trimmed.
pub open spec fn is_ignorable(raw: Seq<char>) -> bool {
    trim(raw).len() == 0 || trim(raw)[0] == '#'
}

/// What one line does to the parser, where the files that an include
/// pattern names give the blocks `inc(pattern)`: those blocks come after
/// the ones read before.
pub open spec fn apply_line(p: ParserView, raw: Seq<char>, inc: spec_fn(Seq<char>) -> Seq<EntryView>) -> ParserView {
    let q = step(p, raw).0;
    match step(p, raw).1 {
        Some(pattern) => ParserView { entries: q.entries + inc(pattern), ..q },
        None => q,
    }
}

/// The parser's state after the lines `lines`, read in order from `p`,
/// where the files of an include pattern give the blocks `inc(pattern)`.
/// Feeding each line with `feed_line`, and handing the blocks of each
/// pattern it answers to `add_included`, follows it line by line.
pub open spec fn run_lines(p: ParserView, lines: Seq<Seq<char>>, inc: spec_fn(Seq<char>) -> Seq<EntryView>) -> ParserView
    decreases lines.len(),
{
    if lines.len() == 0 {
        p
    } else {
        apply_line(run_lines(p, lines.drop_last(), inc), lines.last(), inc)
    }
}

/// The blocks of a legacy configuration file with content `content` in
/// directory `base_dir`, each with the file's global settings filling in
/// what it leaves unset, where the files of an include pattern give the
/// blocks `inc(pattern)`.
pub open spec fn legacy_blocks(content: Seq<char>, base_dir: Seq<char>, inc: spec_fn(Seq<char>) -> Seq<EntryView>) -> Seq<EntryView> {
    let p = run_lines(initial(base_dir), split_lines(content), inc);
    merge_all(p.entries, p.global)
}

/// Blank lines and comments, wherever they stand (inside blocks and
/// scripts too), change nothing: reading the lines gives what reading
/// them without those lines gives.
pub proof fn law_ignorable_lines_change_nothing(
    p: ParserView,
    lines: Seq<Seq<char>>,
    inc: spec_fn(Seq<char>) -> Seq<EntryView>,
)
    ensures
        run_lines(p, lines, inc) == run_lines(p, lines.filter(|l: Seq<char>| !is_ignorable(l)), inc),
    decreases lines.len(),
{
    reveal(Seq::filter);
    let keep = |l: Seq<char>| !is_ignorable(l);
    if lines.len() > 0 {
        law_ignorable_lines_change_nothing(p, lines.drop_last(), inc);
        let f = lines.drop_last().filter(keep);
        assert(lines.filter(keep) == if keep(lines.last()) {
            f.push(lines.last())
        } else {
            f
        });
        if keep(lines.last()) {
            assert(f.push(lines.last()).drop_last() =~= f);
        } else {
            law_blank_and_comment_lines_ignored(run_lines(p, lines.drop_last(), inc), lines.last());
        }
    }
}

/// Two configuration files whose lines are the same once blank lines and
/// comments are left out give the same blocks.
pub proof fn law_files_differing_in_ignorable_lines_agree(
    content1: Seq<char>,
    content2: Seq<char>,
    base_dir: Seq<char>,
    inc: spec_fn(Seq<char>) -> Seq<EntryView>,
)
    requires
        split_lines(content1).filter(|l: Seq<char>| !is_ignorable(l)) == split_lines(content2).filter(
            |l: Seq<char>| !is_ignorable(l),
        ),
    ensures
        legacy_blocks(content1, base_dir, inc) == legacy_blocks(content2, base_dir, inc),
{
    law_ignorable_lines_change_nothing(initial(base_dir), split_lines(content1), inc);
    law_ignorable_lines_change_nothing(initial(base_dir), split_lines(content2), inc);
}

/// Each on/off directive sets its own setting, and nothing else: the
/// directive turns it on, its `no` form (`ifempty` for `notifempty`) off,
/// whatever follows on the line.
pub proof fn law_flag_directives_set_their_setting(cfg: ConfigView, words: Seq<Seq<char>>)
    requires
        words.len() > 0,
    ensures
        words[0] == "compress"@ ==> apply_directive(cfg, words) == (ConfigView { compress: Some(true), ..cfg }),
        words[0] == "nocompress"@ ==> apply_directive(cfg, words) == (ConfigView { compress: Some(false), ..cfg }),
        words[0] == "delaycompress"@ ==> apply_directive(cfg, words) == (ConfigView { delaycompress: Some(true), ..cfg }),
        words[0] == "nodelaycompress"@ ==> apply_directive(cfg, words) == (ConfigView { delaycompress: Some(false), ..cfg }),
        words[0] == "copytruncate"@ ==> apply_directive(cfg, words) == (ConfigView { copytruncate: Some(true), ..cfg }),
        words[0] == "nocopytruncate"@ ==> apply_directive(cfg, words) == (ConfigView { copytruncate: Some(false), ..cfg }),
        words[0] == "missingok"@ ==> apply_directive(cfg, words) == (ConfigView { missingok: Some(true), ..cfg }),
        words[0] == "nomissingok"@ ==> apply_directive(cfg, words) == (ConfigView { missingok: Some(false), ..cfg }),
        words[0] == "notifempty"@ ==> apply_directive(cfg, words) == (ConfigView { notifempty: Some(true), ..cfg }),
        words[0] == "ifempty"@ ==> apply_directive(cfg, words) == (ConfigView { notifempty: Some(false), ..cfg }),
        words[0] == "dateext"@ ==> apply_directive(cfg, words) == (ConfigView { dateext: Some(true), ..cfg }),
        words[0] == "nodateext"@ ==> apply_directive(cfg, words) == (ConfigView { dateext: Some(false), ..cfg }),
        words[0] == "sharedscripts"@ ==> apply_directive(cfg, words) == (ConfigView { sharedscripts: Some(true), ..cfg }),
        words[0] == "nosharedscripts"@ ==> apply_directive(cfg, words) == (ConfigView { sharedscripts: Some(false), ..cfg }),
{
    reveal_strlit("rotate");
    assert("rotate"@.len() == 6);
    reveal_strlit("daily");
    assert("daily"@.len() == 5);
    reveal_strlit("weekly");
    assert("weekly"@.len() == 6);
    reveal_strlit("monthly");
    assert("monthly"@.len() == 7);
    reveal_strlit("yearly");
    assert("yearly"@.len() == 6);
    reveal_strlit("hourly");
    assert("hourly"@.len() == 6);
    reveal_strlit("size");
    assert("size"@.len() == 4);
    reveal_strlit("minsize");
    assert("minsize"@.len() == 7);
    reveal_strlit("maxsize");
    assert("maxsize"@.len() == 7);
    reveal_strlit("maxage");
    assert("maxage"@.len() == 6);
    reveal_strlit("compress");
    assert("compress"@.len() == 8);
    reveal_strlit("nocompress");
    assert("nocompress"@.len() == 10);
    reveal_strlit("delaycompress");
    assert("delaycompress"@.len() == 13);
    reveal_strlit("nodelaycompress");
    assert("nodelaycompress"@.len() == 15);
    reveal_strlit("copytruncate");
    assert("copytruncate"@.len() == 12);
    reveal_strlit("nocopytruncate");
    assert("nocopytruncate"@.len() == 14);
    reveal_strlit("create");
    assert("create"@.len() == 6);
    reveal_strlit("nocreate");
    assert("nocreate"@.len() == 8);
    reveal_strlit("missingok");
    assert("missingok"@.len() == 9);
    reveal_strlit("nomissingok");
    assert("nomissingok"@.len() == 11);
    reveal_strlit("notifempty");
    assert("notifempty"@.len() == 10);
    reveal_strlit("ifempty");
    assert("ifempty"@.len() == 7);
    reveal_strlit("dateext");
    assert("dateext"@.len() == 7);
    reveal_strlit("nodateext");
    assert("nodateext"@.len() == 9);
    reveal_strlit("dateformat");
    assert("dateformat"@.len() == 10);
    reveal_strlit("olddir");
    assert("olddir"@.len() == 6);
    reveal_strlit("noolddir");
    assert("noolddir"@.len() == 8);
    reveal_strlit("sharedscripts");
    assert("sharedscripts"@.len() == 13);
    reveal_strlit("nosharedscripts");
    assert("nosharedscripts"@.len() == 15);
    assert("notifempty"@[2] == 't' && "nocompress"@[2] == 'c');
    assert("ifempty"@[0] == 'i' && "monthly"@[0] == 'm');
    assert("ifempty"@[0] == 'i' && "minsize"@[0] == 'm');
    assert("ifempty"@[0] == 'i' && "maxsize"@[0] == 'm');
    assert("dateext"@[0] == 'd' && "monthly"@[0] == 'm');
    assert("dateext"@[0] == 'd' && "minsize"@[0] == 'm');
    assert("dateext"@[0] == 'd' && "maxsize"@[0] == 'm');
    assert("dateext"@[0] == 'd' && "ifempty"@[0] == 'i');
    assert("nodateext"@[0] == 'n' && "missingok"@[0] == 'm');
    assert("sharedscripts"@[0] == 's' && "delaycompress"@[0] == 'd');
    assert("nosharedscripts"@[2] == 's' && "nodelaycompress"@[2] == 'd');
}

/// A directive line inside a block applies its directive to the block's
/// settings, read from the line's words.
pub proof fn law_directive_in_block_applies(p: ParserView, raw: Seq<char>)
    requires
        is_directive_line(p, raw),
        p.current_paths is Some,
        split_ws(trim(raw)).len() > 0,
    ensures
        step(p, raw).0.current == apply_directive(p.current, split_ws(trim(raw))),
        step(p, raw).0.global == p.global,
{
}

} // verus!
