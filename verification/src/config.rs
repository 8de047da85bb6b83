//! The rotation settings of a block of log files, how global settings fill
//! in what a block leaves unset, and size values such as `100k`.
use vstd::prelude::*;
use crate::text::{
    digits_value, is_digit, parse_unsigned_chars, str_chars, string_views,
    sub_chars,
};

verus! {

/// The rotation settings of one block; `None` means "not set".
#[derive(Debug, Clone)]
pub struct LogConfig {
    pub rotate: Option<u32>,
    pub frequency: Option<String>,
    pub size: Option<u64>,
    pub minsize: Option<u64>,
    pub maxsize: Option<u64>,
    pub maxage: Option<u32>,
    pub compress: Option<bool>,
    pub delaycompress: Option<bool>,
    pub copytruncate: Option<bool>,
    pub create: Option<String>,
    pub missingok: Option<bool>,
    pub notifempty: Option<bool>,
    pub dateext: Option<bool>,
    pub dateformat: Option<String>,
    pub olddir: Option<String>,
    pub postrotate: Option<String>,
    pub prerotate: Option<String>,
    pub sharedscripts: Option<bool>,
    pub mail: Option<String>,
}

/// A block: the log paths (or glob patterns) it names and its settings.
#[derive(Debug, Clone)]
pub struct LogEntry {
    pub paths: Vec<String>,
    pub config: LogConfig,
}

/// A block of a TOML file in the `[[logs]]` form: a `path`, a list of
/// `paths` or both, the frequency as a flag (`daily = true`) or as
/// `frequency`, and the settings.
#[derive(Debug, Clone)]
pub struct TomlLogBlock {
    pub path: Option<String>,
    pub paths: Option<Vec<String>>,
    pub hourly: Option<bool>,
    pub daily: Option<bool>,
    pub weekly: Option<bool>,
    pub monthly: Option<bool>,
    pub yearly: Option<bool>,
    pub config: LogConfig,
}

/// A TOML configuration file: global settings and the blocks, as
/// `[[entries]]` and as `[[logs]]`.
#[derive(Debug, Clone)]
pub struct TomlConfig {
    pub global: Option<LogConfig>,
    pub entries: Option<Vec<LogEntry>>,
    pub logs: Option<Vec<TomlLogBlock>>,
}

/// The settings of a block, with text as character sequences.
pub struct ConfigView {
    pub rotate: Option<u32>,
    pub frequency: Option<Seq<char>>,
    pub size: Option<u64>,
    pub minsize: Option<u64>,
    pub maxsize: Option<u64>,
    pub maxage: Option<u32>,
    pub compress: Option<bool>,
    pub delaycompress: Option<bool>,
    pub copytruncate: Option<bool>,
    pub create: Option<Seq<char>>,
    pub missingok: Option<bool>,
    pub notifempty: Option<bool>,
    pub dateext: Option<bool>,
    pub dateformat: Option<Seq<char>>,
    pub olddir: Option<Seq<char>>,
    pub postrotate: Option<Seq<char>>,
    pub prerotate: Option<Seq<char>>,
    pub sharedscripts: Option<bool>,
    pub mail: Option<Seq<char>>,
}

/// A block: its paths and its settings.
pub struct EntryView {
    pub paths: Seq<Seq<char>>,
    pub config: ConfigView,
}

/// The view of an optional string.
pub open spec fn opt_view(o: Option<String>) -> Option<Seq<char>> {
    match o {
        Some(s) => Some(s@),
        None => None,
    }
}

/// `a.or(b)`: `a` where it is set, else `b`.
pub open spec fn or_else<T>(a: Option<T>, b: Option<T>) -> Option<T> {
    match a {
        Some(x) => Some(x),
        None => b,
    }
}

impl View for LogConfig {
    type V = ConfigView;

    open spec fn view(&self) -> ConfigView {
        ConfigView {
            rotate: self.rotate,
            frequency: opt_view(self.frequency),
            size: self.size,
            minsize: self.minsize,
            maxsize: self.maxsize,
            maxage: self.maxage,
            compress: self.compress,
            delaycompress: self.delaycompress,
            copytruncate: self.copytruncate,
            create: opt_view(self.create),
            missingok: self.missingok,
            notifempty: self.notifempty,
            dateext: self.dateext,
            dateformat: opt_view(self.dateformat),
            olddir: opt_view(self.olddir),
            postrotate: opt_view(self.postrotate),
            prerotate: opt_view(self.prerotate),
            sharedscripts: self.sharedscripts,
            mail: opt_view(self.mail),
        }
    }
}

impl View for LogEntry {
    type V = EntryView;

    open spec fn view(&self) -> EntryView {
        EntryView { paths: string_views(self.paths@), config: self.config@ }
    }
}

/// The views of a sequence of blocks.
pub open spec fn entry_views(es: Seq<LogEntry>) -> Seq<EntryView> {
    es.map_values(|e: LogEntry| e@)
}

/// Settings with nothing set.
pub open spec fn empty_config() -> ConfigView {
    ConfigView {
        rotate: None,
        frequency: None,
        size: None,
        minsize: None,
        maxsize: None,
        maxage: None,
        compress: None,
        delaycompress: None,
        copytruncate: None,
        create: None,
        missingok: None,
        notifempty: None,
        dateext: None,
        dateformat: None,
        olddir: None,
        postrotate: None,
        prerotate: None,
        sharedscripts: None,
        mail: None,
    }
}

/// The settings of block `c`, each one that `c` leaves unset taken from `g`.
pub open spec fn merge(c: ConfigView, g: ConfigView) -> ConfigView {
    ConfigView {
        rotate: or_else(c.rotate, g.rotate),
        frequency: or_else(c.frequency, g.frequency),
        size: or_else(c.size, g.size),
        minsize: or_else(c.minsize, g.minsize),
        maxsize: or_else(c.maxsize, g.maxsize),
        maxage: or_else(c.maxage, g.maxage),
        compress: or_else(c.compress, g.compress),
        delaycompress: or_else(c.delaycompress, g.delaycompress),
        copytruncate: or_else(c.copytruncate, g.copytruncate),
        create: or_else(c.create, g.create),
        missingok: or_else(c.missingok, g.missingok),
        notifempty: or_else(c.notifempty, g.notifempty),
        dateext: or_else(c.dateext, g.dateext),
        dateformat: or_else(c.dateformat, g.dateformat),
        olddir: or_else(c.olddir, g.olddir),
        postrotate: or_else(c.postrotate, g.postrotate),
        prerotate: or_else(c.prerotate, g.prerotate),
        sharedscripts: or_else(c.sharedscripts, g.sharedscripts),
        mail: or_else(c.mail, g.mail),
    }
}

/// Each block with the global settings filling in what it leaves unset.
pub open spec fn merge_all(es: Seq<EntryView>, g: ConfigView) -> Seq<EntryView> {
    es.map_values(|e: EntryView| EntryView { paths: e.paths, config: merge(e.config, g) })
}

impl Default for LogConfig {
    fn default() -> (r: Self)
        ensures
            r@ == empty_config(),
    {
        LogConfig {
            rotate: None,
            frequency: None,
            size: None,
            minsize: None,
            maxsize: None,
            maxage: None,
            compress: None,
            delaycompress: None,
            copytruncate: None,
            create: None,
            missingok: None,
            notifempty: None,
            dateext: None,
            dateformat: None,
            olddir: None,
            postrotate: None,
            prerotate: None,
            sharedscripts: None,
            mail: None,
        }
    }
}

/// A copy of an optional string.
pub fn copy_opt_string(o: &Option<String>) -> (r: Option<String>)
    ensures
        opt_view(r) == opt_view(*o),
{
    match o {
        Some(s) => Some(s.clone()),
        None => None,
    }
}

fn or_str(a: &Option<String>, b: &Option<String>) -> (r: Option<String>)
    ensures
        opt_view(r) == or_else(opt_view(*a), opt_view(*b)),
{
    match a {
        Some(s) => Some(s.clone()),
        None => copy_opt_string(b),
    }
}

fn or_copy<T: Copy>(a: Option<T>, b: Option<T>) -> (r: Option<T>)
    ensures
        r == or_else(a, b),
{
    match a {
        Some(x) => Some(x),
        None => b,
    }
}

/// A copy of a list of strings.
pub fn copy_strings(v: &Vec<String>) -> (r: Vec<String>)
    ensures
        string_views(r@) == string_views(v@),
{
    let mut out: Vec<String> = Vec::new();
    for i in 0..v.len()
        invariant
            string_views(out@) == string_views(v@).take(i as int),
    {
        let ghost before = out@;
        out.push(v[i].clone());
        assert(string_views(out@) =~= string_views(before).push(v@[i as int]@));
        assert(string_views(v@).take(i + 1) =~= string_views(v@).take(i as int).push(
            v@[i as int]@,
        ));
    }
    assert(string_views(v@).take(v.len() as int) =~= string_views(v@));
    out
}

impl LogConfig {
    /// These settings, each one left unset here taken from `global`.
    pub fn with_defaults(&self, global: &LogConfig) -> (r: LogConfig)
        ensures
            r@ == merge(self@, global@),
    {
        LogConfig {
            rotate: or_copy(self.rotate, global.rotate),
            frequency: or_str(&self.frequency, &global.frequency),
            size: or_copy(self.size, global.size),
            minsize: or_copy(self.minsize, global.minsize),
            maxsize: or_copy(self.maxsize, global.maxsize),
            maxage: or_copy(self.maxage, global.maxage),
            compress: or_copy(self.compress, global.compress),
            delaycompress: or_copy(self.delaycompress, global.delaycompress),
            copytruncate: or_copy(self.copytruncate, global.copytruncate),
            create: or_str(&self.create, &global.create),
            missingok: or_copy(self.missingok, global.missingok),
            notifempty: or_copy(self.notifempty, global.notifempty),
            dateext: or_copy(self.dateext, global.dateext),
            dateformat: or_str(&self.dateformat, &global.dateformat),
            olddir: or_str(&self.olddir, &global.olddir),
            postrotate: or_str(&self.postrotate, &global.postrotate),
            prerotate: or_str(&self.prerotate, &global.prerotate),
            sharedscripts: or_copy(self.sharedscripts, global.sharedscripts),
            mail: or_str(&self.mail, &global.mail),
        }
    }

    /// A copy of these settings.
    pub fn copy(&self) -> (r: LogConfig)
        ensures
            r@ == self@,
    {
        LogConfig {
            rotate: self.rotate,
            frequency: copy_opt_string(&self.frequency),
            size: self.size,
            minsize: self.minsize,
            maxsize: self.maxsize,
            maxage: self.maxage,
            compress: self.compress,
            delaycompress: self.delaycompress,
            copytruncate: self.copytruncate,
            create: copy_opt_string(&self.create),
            missingok: self.missingok,
            notifempty: self.notifempty,
            dateext: self.dateext,
            dateformat: copy_opt_string(&self.dateformat),
            olddir: copy_opt_string(&self.olddir),
            postrotate: copy_opt_string(&self.postrotate),
            prerotate: copy_opt_string(&self.prerotate),
            sharedscripts: self.sharedscripts,
            mail: copy_opt_string(&self.mail),
        }
    }
}

/// The blocks, each with `global` filling in the settings it leaves unset.
pub fn apply_global(entries: &Vec<LogEntry>, global: &LogConfig) -> (r: Vec<LogEntry>)
    ensures
        entry_views(r@) == merge_all(entry_views(entries@), global@),
{
    let ghost src = entry_views(entries@);
    let mut out: Vec<LogEntry> = Vec::new();
    for i in 0..entries.len()
        invariant
            src == entry_views(entries@),
            entry_views(out@) == merge_all(src, global@).take(i as int),
    {
        let e = &entries[i];
        let merged = LogEntry { paths: copy_strings(&e.paths), config: e.config.with_defaults(global) };
        let ghost before = out@;
        out.push(merged);
        assert(entry_views(out@) =~= entry_views(before).push(merged@));
        assert(merge_all(src, global@).take(i + 1) =~= merge_all(src, global@).take(
            i as int,
        ).push(merged@));
    }
    assert(merge_all(src, global@).take(entries.len() as int) =~= merge_all(src, global@));
    out
}

/// The frequency that the flags of a `[[logs]]` block set: the first of
/// `hourly`, `daily`, `weekly`, `monthly` and `yearly` that is true.
pub open spec fn flag_frequency(b: TomlLogBlock) -> Option<Seq<char>> {
    if b.hourly == Some(true) {
        Some("hourly"@)
    } else if b.daily == Some(true) {
        Some("daily"@)
    } else if b.weekly == Some(true) {
        Some("weekly"@)
    } else if b.monthly == Some(true) {
        Some("monthly"@)
    } else if b.yearly == Some(true) {
        Some("yearly"@)
    } else {
        None
    }
}

/// The block that a `[[logs]]` block stands for: its `paths`, then its
/// `path`; its settings, with `frequency` where set, else what its flags
/// say.
pub open spec fn block_entry(b: TomlLogBlock) -> EntryView {
    let listed = match b.paths {
        Some(ps) => string_views(ps@),
        None => Seq::<Seq<char>>::empty(),
    };
    let one = match b.path {
        Some(p) => seq![p@],
        None => Seq::<Seq<char>>::empty(),
    };
    EntryView {
        paths: listed + one,
        config: ConfigView {
            frequency: or_else(b.config@.frequency, flag_frequency(b)),
            ..b.config@
        },
    }
}

/// The blocks that `[[logs]]` blocks stand for.
pub open spec fn blocks_entries(bs: Seq<TomlLogBlock>) -> Seq<EntryView> {
    bs.map_values(|b: TomlLogBlock| block_entry(b))
}

/// The block that a `[[logs]]` block stands for.
pub fn block_to_entry(b: &TomlLogBlock) -> (r: LogEntry)
    ensures
        r@ == block_entry(*b),
{
    let freq = if b.hourly == Some(true) {
        Some(String::from_str("hourly"))
    } else if b.daily == Some(true) {
        Some(String::from_str("daily"))
    } else if b.weekly == Some(true) {
        Some(String::from_str("weekly"))
    } else if b.monthly == Some(true) {
        Some(String::from_str("monthly"))
    } else if b.yearly == Some(true) {
        Some(String::from_str("yearly"))
    } else {
        None
    };
    assert(opt_view(freq) == flag_frequency(*b));
    let mut paths: Vec<String> = match &b.paths {
        Some(ps) => copy_strings(ps),
        None => Vec::new(),
    };
    let ghost listed = string_views(paths@);
    if let Some(p) = &b.path {
        paths.push(p.clone());
        assert(string_views(paths@) =~= listed.push(p@));
    } else {
        assert(listed + Seq::<Seq<char>>::empty() =~= listed);
    }
    assert(string_views(paths@) =~= block_entry(*b).paths);
    let mut config = b.config.copy();
    if config.frequency.is_none() {
        config.frequency = freq;
    }
    LogEntry { paths, config }
}

/// The blocks of a TOML configuration, `[[entries]]` then `[[logs]]`, each
/// with the global settings filling in what it leaves unset; none where it
/// has no blocks.
pub fn entries_from_toml(toml_data: TomlConfig) -> (r: Vec<LogEntry>)
    ensures
        entry_views(r@) == merge_all(
            match toml_data.entries {
                Some(es) => entry_views(es@),
                None => Seq::empty(),
            } + match toml_data.logs {
                Some(bs) => blocks_entries(bs@),
                None => Seq::empty(),
            },
            match toml_data.global {
                Some(g) => g@,
                None => empty_config(),
            },
        ),
{
    let ghost d = toml_data;
    let global = match toml_data.global {
        Some(g) => g,
        None => LogConfig::default(),
    };
    let mut entries = match toml_data.entries {
        Some(es) => es,
        None => Vec::new(),
    };
    let ghost first = entry_views(entries@);
    assert(first == match d.entries {
        Some(es) => entry_views(es@),
        None => Seq::<EntryView>::empty(),
    });
    let blocks = match toml_data.logs {
        Some(bs) => bs,
        None => Vec::new(),
    };
    let ghost bv = blocks_entries(blocks@);
    assert(bv == match d.logs {
        Some(bs) => blocks_entries(bs@),
        None => Seq::<EntryView>::empty(),
    });
    let mut i: usize = 0;
    while i < blocks.len()
        invariant
            0 <= i <= blocks.len(),
            bv == blocks_entries(blocks@),
            entry_views(entries@) == first + bv.take(i as int),
        decreases blocks.len() - i,
    {
        let e = block_to_entry(&blocks[i]);
        let ghost before = entries@;
        entries.push(e);
        assert(entry_views(entries@) =~= entry_views(before).push(e@));
        assert(bv.take(i + 1) =~= bv.take(i as int).push(bv[i as int]));
        i = i + 1;
    }
    assert(bv.take(blocks.len() as int) =~= bv);
    apply_global(&entries, &global)
}

/// Global settings fill only what a block leaves unset: each setting the
/// block gives is kept, each it leaves unset comes from the global ones;
/// filling in a second time changes nothing, and global settings with
/// nothing set leave the block as it is.
pub proof fn law_block_settings_take_precedence(c: ConfigView, g: ConfigView)
    ensures
        merge(c, g).rotate == (if c.rotate is Some { c.rotate } else { g.rotate }),
        merge(c, g).frequency == (if c.frequency is Some { c.frequency } else { g.frequency }),
        merge(c, g).size == (if c.size is Some { c.size } else { g.size }),
        merge(c, g).minsize == (if c.minsize is Some { c.minsize } else { g.minsize }),
        merge(c, g).maxsize == (if c.maxsize is Some { c.maxsize } else { g.maxsize }),
        merge(c, g).maxage == (if c.maxage is Some { c.maxage } else { g.maxage }),
        merge(c, g).compress == (if c.compress is Some { c.compress } else { g.compress }),
        merge(c, g).delaycompress == (if c.delaycompress is Some { c.delaycompress } else { g.delaycompress }),
        merge(c, g).copytruncate == (if c.copytruncate is Some { c.copytruncate } else { g.copytruncate }),
        merge(c, g).create == (if c.create is Some { c.create } else { g.create }),
        merge(c, g).missingok == (if c.missingok is Some { c.missingok } else { g.missingok }),
        merge(c, g).notifempty == (if c.notifempty is Some { c.notifempty } else { g.notifempty }),
        merge(c, g).dateext == (if c.dateext is Some { c.dateext } else { g.dateext }),
        merge(c, g).dateformat == (if c.dateformat is Some { c.dateformat } else { g.dateformat }),
        merge(c, g).olddir == (if c.olddir is Some { c.olddir } else { g.olddir }),
        merge(c, g).postrotate == (if c.postrotate is Some { c.postrotate } else { g.postrotate }),
        merge(c, g).prerotate == (if c.prerotate is Some { c.prerotate } else { g.prerotate }),
        merge(c, g).sharedscripts == (if c.sharedscripts is Some { c.sharedscripts } else { g.sharedscripts }),
        merge(c, g).mail == (if c.mail is Some { c.mail } else { g.mail }),
        merge(merge(c, g), g) == merge(c, g),
        merge(c, empty_config()) == c,
{
}

// ---------------------------------------------------------------- sizes

/// The number of decimal digits at the start of `s`.
pub open spec fn digit_run(s: Seq<char>) -> nat
    decreases s.len(),
{
    if s.len() > 0 && is_digit(s[0]) {
        1 + digit_run(s.drop_first())
    } else {
        0
    }
}

/// The number that a size value starts with; 0 when there is none or it
/// does not fit in a `u64`.
pub open spec fn size_number(s: Seq<char>) -> nat {
    let d = s.take(digit_run(s) as int);
    if d.len() > 0 && digits_value(d) <= u64::MAX {
        digits_value(d)
    } else {
        0
    }
}

/// The unit that the last character of a size value names: `k`, `m` or
/// `g` in either case (and the Kelvin sign, which lowercases to `k`).
pub open spec fn size_unit(s: Seq<char>) -> nat {
    if s.len() == 0 {
        1
    } else {
        let c = s.last();
        if c == 'k' || c == 'K' || c == '\u{212A}' {
            1024
        } else if c == 'm' || c == 'M' {
            1024 * 1024
        } else if c == 'g' || c == 'G' {
            1024 * 1024 * 1024
        } else {
            1
        }
    }
}

/// The number of bytes that a size value such as `100k` stands for.
pub open spec fn size_bytes(s: Seq<char>) -> nat {
    size_number(s) * size_unit(s)
}

proof fn lemma_digit_run(s: Seq<char>, k: int)
    requires
        0 <= k <= s.len(),
        forall|j: int| 0 <= j < k ==> is_digit(s[j]),
        k == s.len() || !is_digit(s[k]),
    ensures
        digit_run(s) == k,
    decreases k,
{
    if k > 0 {
        lemma_digit_run(s.drop_first(), k - 1);
    }
}

/// Whether the size value `val` stands for a number of bytes that fits in
/// a `u64`.
pub fn size_fits(val: &Vec<char>) -> (r: bool)
    ensures
        r == (size_bytes(val@) <= u64::MAX),
{
    let (num, unit) = size_parts(val);
    let r = num <= u64::MAX / unit;
    assert(r == (num * unit <= u64::MAX)) by (nonlinear_arith)
        requires
            unit >= 1,
            r == (num <= u64::MAX / unit),
    ;
    r
}

fn size_parts(val: &Vec<char>) -> (r: (u64, u64))
    ensures
        r.0 == size_number(val@),
        r.1 == size_unit(val@),
        r.1 >= 1,
{
    let n = val.len();
    let mut k: usize = 0;
    while k < n && '0' <= val[k] && val[k] <= '9'
        invariant
            0 <= k <= n == val.len(),
            forall|j: int| 0 <= j < k ==> is_digit(val@[j]),
        decreases n - k,
    {
        k = k + 1;
    }
    proof {
        lemma_digit_run(val@, k as int);
    }
    let prefix = sub_chars(val, 0, k);
    assert(prefix@ =~= val@.take(k as int));
    let num: u64 = match parse_unsigned_chars(&prefix, u64::MAX) {
        Some(v) => v,
        None => 0,
    };
    proof {
        assert(prefix@.len() > 0 ==> prefix@[0] != '+');
    }
    let unit: u64 = if n == 0 {
        1
    } else {
        let c = val[n - 1];
        if c == 'k' || c == 'K' || c == '\u{212A}' {
            1024
        } else if c == 'm' || c == 'M' {
            1024 * 1024
        } else if c == 'g' || c == 'G' {
            1024 * 1024 * 1024
        } else {
            1
        }
    };
    (num, unit)
}

/// The number of bytes that a size value such as `100`, `100k`, `10M` or
/// `1G` stands for: the number of leading digits (0 where there are none,
/// or where they do not fit in a `u64`), times 1024, 1024² or 1024³ where
/// the value ends in `k`, `m` or `g`, in either case.
pub fn parse_size_to_bytes(val: &str) -> (r: u64)
    requires
        size_bytes(val@) <= u64::MAX,
    ensures
        r == size_bytes(val@),
{
    let v = str_chars(val);
    parse_size_chars(&v)
}

/// `parse_size_to_bytes` on characters.
pub fn parse_size_chars(v: &Vec<char>) -> (r: u64)
    requires
        size_bytes(v@) <= u64::MAX,
    ensures
        r == size_bytes(v@),
{
    let (num, unit) = size_parts(v);
    num * unit
}

} // verus!
