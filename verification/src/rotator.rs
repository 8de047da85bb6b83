//! The rotation decisions for the files of a block: whether each file is
//! due, in what order scripts and rotations run, and which file
//! operations rotate a file. Performing the operations is left to the
//! caller, who reports back each rotation that succeeded.
use vstd::prelude::*;
use crate::config::{ConfigView, LogConfig, LogEntry};
use crate::datetime::{
    format_datetime, local_now_and_offset, reads_in_format, strftime_reads, strftime_text,
    valid_datetime, DateTime,
};
use crate::paths::{
    file_name_of, is_absolute, join_path, path_file_name, path_parent,
};
use crate::retention::is_dated_copy;
use crate::state::{rotation_due, StateDB};
use crate::text::{
    concat_str, contains_char, decimal, join_strings, join_with, push_chars,
    push_decimal, str_chars, string_views,
};

verus! {

/// The outcome of checking one file.
#[derive(Clone, Copy, Debug, PartialEq, Eq, Structural)]
pub enum FileCheck {
    /// The file is missing and `missingok` is set: skipped.
    Missing,
    /// The file is empty and `notifempty` is set: skipped.
    Empty,
    /// Rotation is forced.
    Forced,
    /// The file is larger than `size`.
    OverSize { size: u64, limit: u64 },
    /// The file is larger than `minsize` and its rotation is due.
    OverMinSizeAndDue { size: u64, limit: u64 },
    /// The file is larger than `maxsize`, or its rotation is due, with
    /// `maxsize` set.
    OverMaxSizeOrDue { size: u64, limit: u64 },
    /// The rotation is due.
    Due,
    /// Nothing calls for a rotation.
    NotDue,
}

/// Whether the check calls for a rotation.
pub open spec fn check_rotates(c: FileCheck) -> bool {
    match c {
        FileCheck::Missing | FileCheck::Empty | FileCheck::NotDue => false,
        _ => true,
    }
}

impl FileCheck {
    /// Whether this check calls for a rotation.
    pub fn rotates(&self) -> (r: bool)
        ensures
            r == check_rotates(*self),
    {
        match self {
            FileCheck::Missing | FileCheck::Empty | FileCheck::NotDue => false,
            _ => true,
        }
    }
}

/// A file that could not be checked.
#[derive(Clone, Debug)]
pub enum RotateError {
    /// The metadata of the file could not be read and `missingok` is not set.
    Metadata { path: String },
    /// chrono cannot write the current time in the `dateformat` of a
    /// `dateext` rotation.
    InvalidDateFormat { format: String },
    /// With `rotate` set, the date that a `dateext` rotation would write
    /// is empty or is not read back in its `dateformat`, so that the copy
    /// could not be told apart when copies beyond `rotate` are removed.
    DateNotRecognised { format: String, date: String },
}

/// The check of a file of `size` bytes whose rotation by time is `due`:
/// an empty file with `notifempty` is skipped, even when forced; a forced
/// rotation happens; then `size`, `minsize` (with the time due) and
/// `maxsize` (or the time due) are tried in turn, then the time alone.
pub open spec fn decide(size: u64, cfg: ConfigView, force: bool, due: bool) -> FileCheck {
    if size == 0 && cfg.notifempty == Some(true) {
        FileCheck::Empty
    } else if force {
        FileCheck::Forced
    } else if cfg.size is Some && size > cfg.size->0 {
        FileCheck::OverSize { size, limit: cfg.size->0 }
    } else if cfg.minsize is Some && size > cfg.minsize->0 && due {
        FileCheck::OverMinSizeAndDue { size, limit: cfg.minsize->0 }
    } else if cfg.maxsize is Some && (size > cfg.maxsize->0 || due) {
        FileCheck::OverMaxSizeOrDue { size, limit: cfg.maxsize->0 }
    } else if due {
        FileCheck::Due
    } else {
        FileCheck::NotDue
    }
}

/// The check of a file of `size` bytes whose rotation by time is `due`.
pub fn decide_rotation(size: u64, config: &LogConfig, force: bool, due: bool) -> (r: FileCheck)
    ensures
        r == decide(size, config@, force, due),
{
    if size == 0 && config.notifempty == Some(true) {
        return FileCheck::Empty;
    }
    if force {
        return FileCheck::Forced;
    }
    if let Some(s) = config.size {
        if size > s {
            return FileCheck::OverSize { size, limit: s };
        }
    }
    if let Some(mins) = config.minsize {
        if size > mins && due {
            return FileCheck::OverMinSizeAndDue { size, limit: mins };
        }
    }
    if let Some(maxs) = config.maxsize {
        if size > maxs || due {
            return FileCheck::OverMaxSizeOrDue { size, limit: maxs };
        }
    }
    if due {
        FileCheck::Due
    } else {
        FileCheck::NotDue
    }
}

/// Whether a path of a block is a glob pattern (holds `*` or `?`).
pub fn is_glob_pattern(p: &str) -> (r: bool)
    ensures
        r == (p@.contains('*') || p@.contains('?')),
{
    let c = str_chars(p);
    contains_char(&c, '*') || contains_char(&c, '?')
}

// ---------------------------------------------------------------- scripts

/// One step of processing a block.
#[derive(Clone, Debug)]
pub enum Step {
    /// Run `script` through `sh -c` with `arg` appended after a space.
    RunScript { script: String, arg: String },
    /// Rotate the file.
    Rotate { file: String },
}

/// A step, with text as character sequences.
pub enum StepView {
    RunScript { script: Seq<char>, arg: Seq<char> },
    Rotate { file: Seq<char> },
}

pub open spec fn step_view(s: Step) -> StepView {
    match s {
        Step::RunScript { script, arg } => StepView::RunScript { script: script@, arg: arg@ },
        Step::Rotate { file } => StepView::Rotate { file: file@ },
    }
}

pub open spec fn step_views(s: Seq<Step>) -> Seq<StepView> {
    s.map_values(|x: Step| step_view(x))
}

pub open spec fn is_shared(cfg: ConfigView) -> bool {
    cfg.sharedscripts == Some(true)
}

/// The steps for one file: its own `prerotate` script unless scripts are
/// shared, its rotation, then its own `postrotate` script unless shared.
pub open spec fn file_steps(cfg: ConfigView, f: Seq<char>) -> Seq<StepView> {
    let pre = if cfg.prerotate is Some && !is_shared(cfg) {
        seq![StepView::RunScript { script: cfg.prerotate->0, arg: f }]
    } else {
        seq![]
    };
    let post = if cfg.postrotate is Some && !is_shared(cfg) {
        seq![StepView::RunScript { script: cfg.postrotate->0, arg: f }]
    } else {
        seq![]
    };
    pre + seq![StepView::Rotate { file: f }] + post
}

/// The steps for the files, in order.
pub open spec fn files_steps(cfg: ConfigView, files: Seq<Seq<char>>) -> Seq<StepView>
    decreases files.len(),
{
    if files.len() == 0 {
        seq![]
    } else {
        files_steps(cfg, files.drop_last()) + file_steps(cfg, files.last())
    }
}

/// The steps of a block whose files to rotate are `files`: nothing where
/// there are none; otherwise a shared `prerotate` script once (with the
/// block's paths joined by spaces), the steps of each file, then a shared
/// `postrotate` script once.
pub open spec fn entry_steps_spec(
    paths: Seq<Seq<char>>,
    cfg: ConfigView,
    files: Seq<Seq<char>>,
) -> Seq<StepView> {
    if files.len() == 0 {
        seq![]
    } else {
        let all = join_with(paths, seq![' ']);
        let pre = if cfg.prerotate is Some && is_shared(cfg) {
            seq![StepView::RunScript { script: cfg.prerotate->0, arg: all }]
        } else {
            seq![]
        };
        let post = if cfg.postrotate is Some && is_shared(cfg) {
            seq![StepView::RunScript { script: cfg.postrotate->0, arg: all }]
        } else {
            seq![]
        };
        pre + files_steps(cfg, files) + post
    }
}

fn push_script(out: &mut Vec<Step>, script: &String, arg: &String)
    ensures
        step_views(final(out)@) == step_views(old(out)@).push(
            StepView::RunScript { script: script@, arg: arg@ },
        ),
{
    let st = Step::RunScript { script: script.clone(), arg: arg.clone() };
    let ghost before = out@;
    out.push(st);
    assert(step_views(out@) =~= step_views(before).push(step_view(st)));
}

/// The command line that runs a script: the script, a space, then the
/// argument.
pub fn script_command(script: &str, arg: &str) -> (r: String)
    ensures
        r@ == script@ + seq![' '] + arg@,
{
    let mut out = String::new();
    push_chars(&mut out, &str_chars(script));
    out.push(' ');
    push_chars(&mut out, &str_chars(arg));
    assert(out@ =~= script@ + seq![' '] + arg@);
    out
}

/// The steps of processing a block whose files to rotate are `files`.
pub fn entry_steps(entry: &LogEntry, files: &Vec<String>) -> (r: Vec<Step>)
    ensures
        step_views(r@) == entry_steps_spec(entry@.paths, entry@.config, string_views(files@)),
{
    let ghost cfg = entry@.config;
    let ghost fs = string_views(files@);
    let mut out: Vec<Step> = Vec::new();
    if files.len() == 0 {
        assert(step_views(out@) =~= Seq::<StepView>::empty());
        return out;
    }
    let shared = entry.config.sharedscripts == Some(true);
    let all = join_strings(&entry.paths, ' ');
    if shared {
        if let Some(pre) = &entry.config.prerotate {
            push_script(&mut out, pre, &all);
        }
    }
    let ghost head = step_views(out@);
    assert(head + files_steps(cfg, fs.take(0)) =~= head);
    for i in 0..files.len()
        invariant
            cfg == entry@.config,
            fs == string_views(files@),
            shared == is_shared(cfg),
            step_views(out@) == head + files_steps(cfg, fs.take(i as int)),
    {
        let f = &files[i];
        let ghost before = step_views(out@);
        if !shared {
            if let Some(pre) = &entry.config.prerotate {
                push_script(&mut out, pre, f);
            }
        }
        let st = Step::Rotate { file: f.clone() };
        let ghost mid = out@;
        out.push(st);
        assert(step_views(out@) =~= step_views(mid).push(step_view(st)));
        if !shared {
            if let Some(post) = &entry.config.postrotate {
                push_script(&mut out, post, f);
            }
        }
        assert(fs[i as int] == f@);
        assert(fs.take(i + 1).drop_last() =~= fs.take(i as int));
        assert(step_views(out@) =~= before + file_steps(cfg, f@));
    }
    assert(fs.take(files.len() as int) =~= fs);
    if shared {
        if let Some(post) = &entry.config.postrotate {
            push_script(&mut out, post, &all);
        }
    }
    assert(step_views(out@) =~= entry_steps_spec(entry@.paths, cfg, fs));
    out
}

// ---------------------------------------------------------------- file operations

/// A file operation of a rotation; the first that fails ends the rotation.
#[derive(Clone, Debug)]
pub enum FileOp {
    /// Create the directory and its parents; a failure is ignored.
    CreateDirAll { dir: String },
    /// Copy the file.
    Copy { from: String, to: String },
    /// Truncate the file to zero length.
    Truncate { path: String },
    /// Rename the file.
    Rename { from: String, to: String },
    /// Create the log file anew, empty.
    CreateLog { path: String },
    /// Write the gzip compression of `from` to `to`.
    Compress { from: String, to: String },
    /// Remove the file.
    Remove { path: String },
    /// Remove the file where it exists.
    RemoveIfExists { path: String },
    /// Rename the file where it exists.
    RenameIfExists { from: String, to: String },
    /// Where `from` exists, compress it to `to`, then remove it.
    CompressIfExists { from: String, to: String },
    /// Remove the dated copies of the log file `name` in `dir` that
    /// `dated_copies_to_remove` names, so that at most `keep` remain;
    /// `format` is the date format of their names.
    PruneDated { dir: String, name: String, format: String, keep: u32 },
}

/// A file operation, with text as character sequences.
pub enum OpView {
    CreateDirAll { dir: Seq<char> },
    Copy { from: Seq<char>, to: Seq<char> },
    Truncate { path: Seq<char> },
    Rename { from: Seq<char>, to: Seq<char> },
    CreateLog { path: Seq<char> },
    Compress { from: Seq<char>, to: Seq<char> },
    Remove { path: Seq<char> },
    RemoveIfExists { path: Seq<char> },
    RenameIfExists { from: Seq<char>, to: Seq<char> },
    CompressIfExists { from: Seq<char>, to: Seq<char> },
    PruneDated { dir: Seq<char>, name: Seq<char>, format: Seq<char>, keep: u32 },
}

pub open spec fn op_view(o: FileOp) -> OpView {
    match o {
        FileOp::CreateDirAll { dir } => OpView::CreateDirAll { dir: dir@ },
        FileOp::Copy { from, to } => OpView::Copy { from: from@, to: to@ },
        FileOp::Truncate { path } => OpView::Truncate { path: path@ },
        FileOp::Rename { from, to } => OpView::Rename { from: from@, to: to@ },
        FileOp::CreateLog { path } => OpView::CreateLog { path: path@ },
        FileOp::Compress { from, to } => OpView::Compress { from: from@, to: to@ },
        FileOp::Remove { path } => OpView::Remove { path: path@ },
        FileOp::RemoveIfExists { path } => OpView::RemoveIfExists { path: path@ },
        FileOp::RenameIfExists { from, to } => OpView::RenameIfExists { from: from@, to: to@ },
        FileOp::CompressIfExists { from, to } => OpView::CompressIfExists { from: from@, to: to@ },
        FileOp::PruneDated { dir, name, format, keep } => OpView::PruneDated {
            dir: dir@,
            name: name@,
            format: format@,
            keep,
        },
    }
}

pub open spec fn op_views(s: Seq<FileOp>) -> Seq<OpView> {
    s.map_values(|x: FileOp| op_view(x))
}

/// The file operations of a rotation, and where rotated files go.
#[derive(Clone, Debug)]
pub struct RotationPlan {
    pub dest_base: String,
    pub file_name: String,
    pub ops: Vec<FileOp>,
}

/// What rotating a file amounts to.
#[derive(Clone, Debug)]
pub enum Rotation {
    /// In a dry run no file is touched; the rotation is only reported.
    DryRun,
    /// The file operations to perform, in order.
    Apply(RotationPlan),
}

/// Whether the rotated file is compressed at once (`compress` without
/// `delaycompress`).
pub open spec fn compress_now(cfg: ConfigView) -> bool {
    cfg.compress == Some(true) && cfg.delaycompress != Some(true)
}

/// The name of the rotated file of `index`: `name.index`, with `.gz`
/// where compression is on, except for index 1 under `delaycompress`.
pub open spec fn rotated_name(name: Seq<char>, index: nat, cfg: ConfigView) -> Seq<char> {
    let gz = if cfg.compress == Some(true) && !(cfg.delaycompress == Some(true) && index == 1) {
        seq!['.', 'g', 'z']
    } else {
        seq![]
    };
    name + seq!['.'] + decimal(index) + gz
}

/// The path of the rotated file of `index` in directory `base`.
pub open spec fn rotated_path(base: Seq<char>, name: Seq<char>, index: nat, cfg: ConfigView) -> Seq<
    char,
> {
    join_path(base, rotated_name(name, index, cfg))
}

pub open spec fn parent_or_empty(path: Seq<char>) -> Seq<char> {
    match path_parent(path) {
        Some(q) => q,
        None => seq![],
    }
}

pub open spec fn file_name_or_empty(path: Seq<char>) -> Seq<char> {
    match path_file_name(path) {
        Some(q) => q,
        None => seq![],
    }
}

/// The directory that rotated files go to: `olddir` (relative to the
/// file's directory unless absolute) where set, else the file's directory.
pub open spec fn dest_base(path: Seq<char>, cfg: ConfigView) -> Seq<char> {
    match cfg.olddir {
        Some(o) => join_path(parent_or_empty(path), o),
        None => parent_or_empty(path),
    }
}

/// Moving the log file to `dest`: a copy and a truncation under
/// `copytruncate`, else a rename and a new empty log file.
pub open spec fn move_ops(cfg: ConfigView, path: Seq<char>, dest: Seq<char>) -> Seq<OpView> {
    if cfg.copytruncate == Some(true) {
        seq![OpView::Copy { from: path, to: dest }, OpView::Truncate { path }]
    } else {
        seq![OpView::Rename { from: path, to: dest }, OpView::CreateLog { path }]
    }
}

/// The operations of a rotation with `dateext`: the file goes to its name
/// followed by the date suffix; where compressed at once, that copy is
/// compressed to the same name followed by `.gz`, then removed; with
/// `rotate` set, the dated copies beyond that many go.
pub open spec fn dateext_ops(
    path: Seq<char>,
    cfg: ConfigView,
    base: Seq<char>,
    name: Seq<char>,
    suffix: Seq<char>,
) -> Seq<OpView> {
    let plain = join_path(base, name + suffix);
    let compress = if compress_now(cfg) {
        seq![
            OpView::Compress { from: plain, to: plain + seq!['.', 'g', 'z'] },
            OpView::Remove { path: plain },
        ]
    } else {
        seq![]
    };
    let prune = match cfg.rotate {
        Some(n) => seq![
            OpView::PruneDated { dir: base, name, format: date_format_spec(cfg), keep: n },
        ],
        None => seq![],
    };
    move_ops(cfg, path, plain) + compress + prune
}

/// Where the rotated file of `index` goes when the files shift up by one:
/// the rotated file of the next index, except that under `delaycompress`
/// the uncompressed number 1 becomes the uncompressed number 2, which is
/// compressed afterwards.
pub open spec fn shift_dest(base: Seq<char>, name: Seq<char>, index: nat, cfg: ConfigView) -> Seq<char> {
    if index == 1 && cfg.compress == Some(true) && cfg.delaycompress == Some(true) {
        join_path(base, name + seq!['.', '2'])
    } else {
        rotated_path(base, name, index + 1, cfg)
    }
}

/// Renaming the rotated files of the indexes from `highest` down to 1,
/// where they exist, one index up.
pub open spec fn shift_ops(base: Seq<char>, name: Seq<char>, highest: nat, cfg: ConfigView) -> Seq<OpView> {
    Seq::new(
        highest,
        |k: int|
            OpView::RenameIfExists {
                from: rotated_path(base, name, (highest - k) as nat, cfg),
                to: shift_dest(base, name, (highest - k) as nat, cfg),
            },
    )
}

/// The operations of a numbered rotation keeping `rotate` files: none
/// where `rotate` is unset or 0; otherwise the oldest is removed, the
/// others shift up by one (`shift_ops`), the file becomes number 1 (compressed at once
/// where so configured), and under `delaycompress` number 2 is compressed.
pub open spec fn numbered_ops(path: Seq<char>, cfg: ConfigView, base: Seq<char>, name: Seq<char>) -> Seq<
    OpView,
> {
    let max: u32 = match cfg.rotate {
        Some(r) => r,
        None => 0,
    };
    if max == 0 {
        seq![]
    } else {
        let d1 = rotated_path(base, name, 1, cfg);
        let staged = if compress_now(cfg) {
            join_path(base, name + seq!['.', '1'])
        } else {
            d1
        };
        let compress = if compress_now(cfg) {
            seq![OpView::Compress { from: staged, to: d1 }, OpView::Remove { path: staged }]
        } else {
            seq![]
        };
        let delayed = if cfg.compress == Some(true) && cfg.delaycompress == Some(true) {
            seq![
                OpView::CompressIfExists {
                    from: join_path(base, name + seq!['.', '2']),
                    to: rotated_path(base, name, 2, cfg),
                },
            ]
        } else {
            seq![]
        };
        seq![OpView::RemoveIfExists { path: rotated_path(base, name, max as nat, cfg) }]
            + shift_ops(base, name, (max - 1) as nat, cfg) + move_ops(cfg, path, staged) + compress
            + delayed
    }
}

/// The file operations that rotate the file at `path`.
pub open spec fn rotation_ops(path: Seq<char>, cfg: ConfigView, suffix: Seq<char>) -> Seq<OpView> {
    let base = dest_base(path, cfg);
    let name = file_name_or_empty(path);
    let prep = if cfg.olddir is Some {
        seq![OpView::CreateDirAll { dir: base }]
    } else {
        seq![]
    };
    prep + if cfg.dateext == Some(true) {
        dateext_ops(path, cfg, base, name, suffix)
    } else {
        numbered_ops(path, cfg, base, name)
    }
}

fn push_op(out: &mut Vec<FileOp>, op: FileOp)
    ensures
        op_views(final(out)@) == op_views(old(out)@).push(op_view(op)),
{
    let ghost before = out@;
    out.push(op);
    assert(op_views(out@) =~= op_views(before).push(op_view(op)));
}

fn move_ops_exec(out: &mut Vec<FileOp>, config: &LogConfig, path: &String, dest: &String)
    ensures
        op_views(final(out)@) == op_views(old(out)@) + move_ops(config@, path@, dest@),
{
    let ghost before = op_views(out@);
    if config.copytruncate == Some(true) {
        push_op(out, FileOp::Copy { from: path.clone(), to: dest.clone() });
        push_op(out, FileOp::Truncate { path: path.clone() });
    } else {
        push_op(out, FileOp::Rename { from: path.clone(), to: dest.clone() });
        push_op(out, FileOp::CreateLog { path: path.clone() });
    }
    assert(op_views(out@) =~= before + move_ops(config@, path@, dest@));
}

/// The date format of `dateext` names: `dateformat`, or `-%Y%m%d`.
pub open spec fn date_format_spec(cfg: ConfigView) -> Seq<char> {
    match cfg.dateformat {
        Some(f) => f,
        None => "-%Y%m%d"@,
    }
}

/// The date format of `dateext` names: `dateformat`, or `-%Y%m%d`.
pub fn date_format(config: &LogConfig) -> (r: String)
    ensures
        r@ == date_format_spec(config@),
{
    match &config.dateformat {
        Some(f) => f.clone(),
        None => String::from_str("-%Y%m%d"),
    }
}

fn path_is_absolute(p: &String) -> (r: bool)
    ensures
        r == is_absolute(p@),
{
    let c = str_chars(p.as_str());
    c.len() > 0 && c[0] == '/'
}

/// The path of the rotated file of `index` in directory `base`.
pub fn rotated_path_of(base: &str, name: &str, index: u32, config: &LogConfig) -> (r: String)
    ensures
        r@ == rotated_path(base@, name@, index as nat, config@),
{
    let mut n = String::new();
    push_chars(&mut n, &str_chars(name));
    n.push('.');
    push_decimal(&mut n, index as u64);
    if config.compress == Some(true) && !(config.delaycompress == Some(true) && index == 1) {
        n.push('.');
        n.push('g');
        n.push('z');
    }
    assert(n@ =~= rotated_name(name@, index as nat, config@));
    crate::paths::join_path_str(base, n.as_str())
}

fn name_with(name: &String, a: char, b: char) -> (r: String)
    ensures
        r@ == name@ + seq![a, b],
{
    let mut n = String::new();
    push_chars(&mut n, &str_chars(name.as_str()));
    n.push(a);
    n.push(b);
    assert(n@ =~= name@ + seq![a, b]);
    n
}

fn push_dateext_ops(
    ops: &mut Vec<FileOp>,
    path: &String,
    config: &LogConfig,
    base: &String,
    name: &String,
    date_suffix: &str,
)
    ensures
        op_views(final(ops)@) == op_views(old(ops)@) + dateext_ops(
            path@,
            config@,
            base@,
            name@,
            date_suffix@,
        ),
{
    let ghost start = op_views(ops@);
    let now = config.compress == Some(true) && config.delaycompress != Some(true);
    let dest_name = concat_str(name.as_str(), date_suffix);
    let plain = crate::paths::join_path_str(base.as_str(), dest_name.as_str());
    move_ops_exec(ops, config, path, &plain);
    let ghost after_move = op_views(ops@);
    if now {
        let gz = concat_str(plain.as_str(), ".gz");
        proof {
            reveal_strlit(".gz");
        }
        assert(gz@ =~= plain@ + seq!['.', 'g', 'z']);
        push_op(ops, FileOp::Compress { from: plain.clone(), to: gz });
        push_op(ops, FileOp::Remove { path: plain.clone() });
    }
    let ghost after_compress = op_views(ops@);
    if let Some(n) = config.rotate {
        push_op(
            ops,
            FileOp::PruneDated {
                dir: base.clone(),
                name: name.clone(),
                format: date_format(config),
                keep: n,
            },
        );
    }
    assert(op_views(ops@) =~= start + dateext_ops(path@, config@, base@, name@, date_suffix@));
}

fn push_numbered_ops(
    ops: &mut Vec<FileOp>,
    path: &String,
    config: &LogConfig,
    base: &String,
    name: &String,
)
    ensures
        op_views(final(ops)@) == op_views(old(ops)@) + numbered_ops(path@, config@, base@, name@),
{
    let ghost start = op_views(ops@);
    let now = config.compress == Some(true) && config.delaycompress != Some(true);
    let max_rotate: u32 = match config.rotate {
        Some(r) => r,
        None => 0,
    };
    if max_rotate > 0 {
        let oldest = rotated_path_of(base.as_str(), name.as_str(), max_rotate, config);
        push_op(ops, FileOp::RemoveIfExists { path: oldest });
        let highest = max_rotate - 1;
        let ghost shifts = shift_ops(base@, name@, highest as nat, config@);
        let ghost before_shift = op_views(ops@);
        let delayed = config.compress == Some(true) && config.delaycompress == Some(true);
        let mut k: u32 = 0;
        while k < highest
            invariant
                k <= highest,
                highest == max_rotate - 1,
                shifts == shift_ops(base@, name@, highest as nat, config@),
                delayed == (config@.compress == Some(true) && config@.delaycompress == Some(true)),
                op_views(ops@) == before_shift + shifts.take(k as int),
            decreases highest - k,
        {
            let index = highest - k;
            let from = rotated_path_of(base.as_str(), name.as_str(), index, config);
            let to = if index == 1 && delayed {
                let n2 = name_with(name, '.', '2');
                crate::paths::join_path_str(base.as_str(), n2.as_str())
            } else {
                rotated_path_of(base.as_str(), name.as_str(), index + 1, config)
            };
            assert(to@ == shift_dest(base@, name@, index as nat, config@));
            let ghost prev = op_views(ops@);
            push_op(ops, FileOp::RenameIfExists { from, to });
            assert(shifts.take(k + 1) =~= shifts.take(k as int).push(shifts[k as int]));
            k = k + 1;
        }
        assert(shifts.take(highest as int) =~= shifts);
        let d1 = rotated_path_of(base.as_str(), name.as_str(), 1, config);
        let staged = if now {
            let n1 = name_with(name, '.', '1');
            crate::paths::join_path_str(base.as_str(), n1.as_str())
        } else {
            d1.clone()
        };
        let ghost after_shift = op_views(ops@);
        move_ops_exec(ops, config, path, &staged);
        let ghost after_move = op_views(ops@);
        if now {
            push_op(ops, FileOp::Compress { from: staged.clone(), to: d1.clone() });
            push_op(ops, FileOp::Remove { path: staged.clone() });
        }
        let ghost after_compress = op_views(ops@);
        if config.compress == Some(true) && config.delaycompress == Some(true) {
            let n2 = name_with(name, '.', '2');
            let second_plain = crate::paths::join_path_str(base.as_str(), n2.as_str());
            let second = rotated_path_of(base.as_str(), name.as_str(), 2, config);
            push_op(ops, FileOp::CompressIfExists { from: second_plain, to: second });
        }
        assert(op_views(ops@) =~= start + numbered_ops(path@, config@, base@, name@));
    } else {
        assert(op_views(ops@) =~= start + numbered_ops(path@, config@, base@, name@));
    }
}

/// The file operations that rotate the file at `path`, and where its
/// rotated files go.
pub fn rotation_plan(path: &str, config: &LogConfig, date_suffix: &str) -> (r: RotationPlan)
    ensures
        r.dest_base@ == dest_base(path@, config@),
        r.file_name@ == file_name_or_empty(path@),
        op_views(r.ops@) == rotation_ops(path@, config@, date_suffix@),
{
    let ghost cfg = config@;
    let path_s = String::from_str(path);
    let parent = crate::paths::parent_dir(path);
    let mut ops: Vec<FileOp> = Vec::new();
    let base = match &config.olddir {
        Some(o) => {
            let absolute = if path_is_absolute(o) {
                o.clone()
            } else {
                crate::paths::join_path_str(parent.as_str(), o.as_str())
            };
            push_op(&mut ops, FileOp::CreateDirAll { dir: absolute.clone() });
            absolute
        },
        None => parent,
    };
    let name = match file_name_of(path) {
        Some(q) => q,
        None => String::new(),
    };
    assert(base@ == dest_base(path@, cfg));
    assert(name@ == file_name_or_empty(path@));
    let ghost prep = op_views(ops@);
    assert(prep =~= (if cfg.olddir is Some {
        seq![OpView::CreateDirAll { dir: base@ }]
    } else {
        Seq::<OpView>::empty()
    }));
    if config.dateext == Some(true) {
        push_dateext_ops(&mut ops, &path_s, config, &base, &name, date_suffix);
    } else {
        push_numbered_ops(&mut ops, &path_s, config, &base, &name);
    }
    RotationPlan { dest_base: base, file_name: name, ops }
}

// ---------------------------------------------------------------- the rotator

/// Whether `due` can be what the time says of `path` under `cfg`: false
/// without a frequency; else what `rotation_due` gives at some moment.
pub open spec fn due_possible(
    db: Map<Seq<char>, DateTime>,
    path: Seq<char>,
    cfg: ConfigView,
    due: bool,
) -> bool {
    match cfg.frequency {
        None => !due,
        Some(f) => exists|now: DateTime| valid_datetime(now) && due == rotation_due(db, path, f, now),
    }
}

/// Whether `c` is a check that a file with metadata `size` (`None` where
/// it could not be read) can get.
pub open spec fn check_ok(
    db: Map<Seq<char>, DateTime>,
    force: bool,
    cfg: ConfigView,
    path: Seq<char>,
    size: Option<u64>,
    c: FileCheck,
) -> bool {
    match size {
        None => cfg.missingok == Some(true) && c == FileCheck::Missing,
        Some(s) => exists|due: bool| due_possible(db, path, cfg, due) && c == decide(s, cfg, force, due),
    }
}

/// A file whose check fails: its metadata could not be read, without
/// `missingok`.
pub open spec fn check_fails(cfg: ConfigView, size: Option<u64>) -> bool {
    size is None && cfg.missingok != Some(true)
}

/// A file matched by a block, and its size where its metadata could be
/// read.
#[derive(Clone, Debug)]
pub struct FileStatus {
    pub path: String,
    pub size: Option<u64>,
}

/// The checks of the files of a block, in order, and the steps to take.
#[derive(Clone, Debug)]
pub struct EntryPlan {
    /// The checks of the files, up to the one that failed where one did.
    pub checks: Vec<FileCheck>,
    /// The error of the file that could not be checked, if any.
    pub failed: Option<RotateError>,
    /// The steps to take; none where a check failed.
    pub steps: Vec<Step>,
}

pub open spec fn status_paths(fs: Seq<FileStatus>) -> Seq<Seq<char>> {
    fs.map_values(|f: FileStatus| f.path@)
}

/// The paths of the files whose checks call for a rotation, in order.
pub open spec fn rotating(paths: Seq<Seq<char>>, checks: Seq<FileCheck>) -> Seq<Seq<char>>
    decreases checks.len(),
{
    if checks.len() == 0 {
        seq![]
    } else {
        let prev = rotating(paths, checks.drop_last());
        if check_rotates(checks.last()) {
            prev.push(paths[checks.len() - 1])
        } else {
            prev
        }
    }
}

/// Whether the date `t` can name a dated copy under `cfg`: anything does
/// without `rotate`; with it, the date must be read back in the date
/// format, so that the copy is found again when copies beyond `rotate`
/// are removed.
pub open spec fn date_usable(cfg: ConfigView, t: Seq<char>) -> bool {
    cfg.rotate is Some ==> t.len() > 0 && strftime_reads(date_format_spec(cfg), t)
}

/// Whether `r` is the date suffix of a `dateext` rotation under `cfg` at
/// the local date-time `now`, `offset` seconds east of UTC: the date that
/// chrono writes in `date_format_spec(cfg)`, where it can and the date is
/// usable; otherwise the matching error.
pub open spec fn suffix_outcome(r: Result<String, RotateError>, cfg: ConfigView, now: DateTime, offset: i32) -> bool {
    let fmt = date_format_spec(cfg);
    match strftime_text(fmt, now, offset) {
        None => r matches Err(RotateError::InvalidDateFormat { format }) && format@ == fmt,
        Some(t) => if date_usable(cfg, t) {
            r matches Ok(s) && s@ == t
        } else {
            r matches Err(RotateError::DateNotRecognised { format, date }) && format@ == fmt
                && date@ == t
        },
    }
}

/// Whether `r` applies the rotation plan of the file at `path` under `cfg`
/// with the date suffix `suffix`.
pub open spec fn applies_plan(r: Result<Rotation, RotateError>, path: Seq<char>, cfg: ConfigView, suffix: Seq<char>) -> bool {
    r matches Ok(Rotation::Apply(plan)) && plan.dest_base@ == dest_base(path, cfg)
        && plan.file_name@ == file_name_or_empty(path) && op_views(plan.ops@) == rotation_ops(
        path,
        cfg,
        suffix,
    )
}

/// Whether `r` is what rotating the file at `path` under `cfg` (with
/// `dateext`) gives at the local date-time `now`, `offset` seconds east of
/// UTC: the plan with the date that chrono writes as suffix, where it is
/// usable; otherwise the error of the suffix.
pub open spec fn rotation_outcome(r: Result<Rotation, RotateError>, path: Seq<char>, cfg: ConfigView, now: DateTime, offset: i32) -> bool {
    let fmt = date_format_spec(cfg);
    match strftime_text(fmt, now, offset) {
        None => r matches Err(RotateError::InvalidDateFormat { format }) && format@ == fmt,
        Some(t) => if date_usable(cfg, t) {
            applies_plan(r, path, cfg, t)
        } else {
            r matches Err(RotateError::DateNotRecognised { format, date }) && format@ == fmt
                && date@ == t
        },
    }
}

/// The date suffix of a `dateext` rotation under `config` at the local
/// date-time `now`, `offset` seconds east of UTC.
pub fn date_suffix_at(config: &LogConfig, now: &DateTime, offset: i32) -> (r: Result<String, RotateError>)
    ensures
        suffix_outcome(r, config@, *now, offset),
{
    let fmt = date_format(config);
    match format_datetime(fmt.as_str(), now, offset) {
        None => Err(RotateError::InvalidDateFormat { format: fmt }),
        Some(t) => {
            if config.rotate.is_some() && (str_chars(t.as_str()).len() == 0 || !reads_in_format(
                fmt.as_str(),
                t.as_str(),
            )) {
                Err(RotateError::DateNotRecognised { format: fmt, date: t })
            } else {
                Ok(t)
            }
        },
    }
}

/// Rotates the log files of blocks, recording each rotation in the state.
pub struct Rotator<'a> {
    pub state_db: &'a mut StateDB,
    pub dry_run: bool,
    pub verbose: bool,
    pub force: bool,
}

impl<'a> Rotator<'a> {
    /// A rotator recording into `state_db`.
    pub fn new(state_db: &'a mut StateDB, dry_run: bool, verbose: bool, force: bool) -> (r: Self)
        ensures
            *r.state_db == *old(state_db),
            *final(state_db) == *final(r.state_db),
            r.dry_run == dry_run,
            r.verbose == verbose,
            r.force == force,
    {
        Rotator { state_db, dry_run, verbose, force }
    }

    /// The check of the file at `path`, of `size` bytes (`None` where its
    /// metadata could not be read): an error where it could not be read,
    /// without `missingok`; otherwise what `decide` gives, with the time
    /// due as the state and the current local time say.
    pub fn should_rotate_file(&self, path: &str, size: Option<u64>, config: &LogConfig) -> (r:
        Result<FileCheck, RotateError>)
        ensures
            check_fails(config@, size) ==> r is Err && r->Err_0->path@ == path@,
            !check_fails(config@, size) ==> r is Ok && check_ok(
                old(self.state_db)@,
                self.force,
                config@,
                path@,
                size,
                r->Ok_0,
            ),
    {
        let s = match size {
            None => {
                if config.missingok == Some(true) {
                    return Ok(FileCheck::Missing);
                }
                return Err(RotateError::Metadata { path: String::from_str(path) });
            },
            Some(s) => s,
        };
        if s == 0 && config.notifempty == Some(true) {
            proof {
                assert(due_possible(self.state_db@, path@, config@, false) || due_possible(
                    self.state_db@,
                    path@,
                    config@,
                    true,
                )) by {
                    if let Some(f) = config@.frequency {
                        let now = crate::datetime::epoch();
                        crate::datetime::lemma_epoch_valid();
                        assert(due_possible(
                            self.state_db@,
                            path@,
                            config@,
                            rotation_due(self.state_db@, path@, f, now),
                        ));
                    }
                }
            }
            return Ok(FileCheck::Empty);
        }
        if self.force {
            proof {
                if let Some(f) = config@.frequency {
                    let now = crate::datetime::epoch();
                    crate::datetime::lemma_epoch_valid();
                    assert(due_possible(
                        self.state_db@,
                        path@,
                        config@,
                        rotation_due(self.state_db@, path@, f, now),
                    ));
                }
            }
            return Ok(FileCheck::Forced);
        }
        let due = match &config.frequency {
            Some(f) => self.state_db.should_rotate(path, f.as_str()),
            None => false,
        };
        Ok(decide_rotation(s, config, self.force, due))
    }

    /// The checks of the files of a block, in order, stopping at the first
    /// that fails; and, where none fails, the steps of the block for the
    /// files whose checks call for a rotation.
    pub fn process_entry(&self, entry: &LogEntry, files: &Vec<FileStatus>) -> (r: EntryPlan)
        ensures
            r.checks.len() <= files.len(),
            forall|i: int|
                0 <= i < r.checks.len() ==> check_ok(
                    old(self.state_db)@,
                    self.force,
                    entry@.config,
                    files@[i].path@,
                    files@[i].size,
                    #[trigger] r.checks@[i],
                ),
            match r.failed {
                Some(e) => {
                    &&& r.checks.len() < files.len()
                    &&& check_fails(entry@.config, files@[r.checks.len() as int].size)
                    &&& e->path@ == files@[r.checks.len() as int].path@
                    &&& r.steps@.len() == 0
                },
                None => {
                    &&& r.checks.len() == files.len()
                    &&& step_views(r.steps@) == entry_steps_spec(
                        entry@.paths,
                        entry@.config,
                        rotating(status_paths(files@), r.checks@),
                    )
                },
            },
    {
        let mut checks: Vec<FileCheck> = Vec::new();
        let mut to_rotate: Vec<String> = Vec::new();
        let ghost ps = status_paths(files@);
        for i in 0..files.len()
            invariant
                ps == status_paths(files@),
                checks.len() == i,
                forall|k: int|
                    0 <= k < i ==> check_ok(
                        self.state_db@,
                        self.force,
                        entry@.config,
                        files@[k].path@,
                        files@[k].size,
                        #[trigger] checks@[k],
                    ),
                string_views(to_rotate@) == rotating(ps, checks@),
        {
            let f = &files[i];
            match self.should_rotate_file(f.path.as_str(), f.size, &entry.config) {
                Ok(c) => {
                    let ghost before = checks@;
                    let ghost rot_before = to_rotate@;
                    checks.push(c);
                    assert(checks@.drop_last() =~= before);
                    if c.rotates() {
                        to_rotate.push(f.path.clone());
                        assert(string_views(to_rotate@) =~= string_views(rot_before).push(
                            f.path@,
                        ));
                    }
                    assert(ps[i as int] == f.path@);
                },
                Err(e) => {
                    return EntryPlan { checks, failed: Some(e), steps: Vec::new() };
                },
            }
        }
        let steps = entry_steps(entry, &to_rotate);
        EntryPlan { checks, failed: None, steps }
    }

    /// What rotating the file at `path` amounts to: nothing but a report in
    /// a dry run; otherwise the file operations of `rotation_plan`. Under
    /// `dateext` the date suffix is the current local time as
    /// `date_suffix_at` writes it, or the error it gives.
    pub fn rotate_single_file(&self, path: &str, config: &LogConfig) -> (r: Result<
        Rotation,
        RotateError,
    >)
        ensures
            self.dry_run ==> r == Ok::<Rotation, RotateError>(Rotation::DryRun),
            !self.dry_run && config@.dateext != Some(true) ==> applies_plan(
                r,
                path@,
                config@,
                Seq::empty(),
            ),
            !self.dry_run && config@.dateext == Some(true) ==> exists|now: DateTime, offset: i32|
                valid_datetime(now) && -86400 < offset < 86400 && #[trigger] rotation_outcome(
                    r,
                    path@,
                    config@,
                    now,
                    offset,
                ),
    {
        if self.dry_run {
            return Ok(Rotation::DryRun);
        }
        if config.dateext != Some(true) {
            let none = String::new();
            return Ok(Rotation::Apply(rotation_plan(path, config, none.as_str())));
        }
        let (now, offset) = local_now_and_offset();
        let r = match date_suffix_at(config, &now, offset) {
            Ok(suffix) => Ok(Rotation::Apply(rotation_plan(path, config, suffix.as_str()))),
            Err(e) => Err(e),
        };
        assert(rotation_outcome(r, path@, config@, now, offset));
        r
    }

    /// The path of the rotated file of `index` in directory `dest_base`.
    pub fn get_rotated_path(&self, dest_base: &str, file_name: &str, index: u32, config: &LogConfig)
        -> (r: String)
        ensures
            r@ == rotated_path(dest_base@, file_name@, index as nat, config@),
    {
        rotated_path_of(dest_base, file_name, index, config)
    }

    /// Records a rotation of the file at `path`, done (or reported in a dry
    /// run) now.
    pub fn record_rotation(&mut self, path: &str)
        ensures
            final(self).state_db@.dom() == old(self).state_db@.dom().insert(path@),
            forall|k: Seq<char>|
                k != path@ && #[trigger] old(self).state_db@.contains_key(k) ==> final(self).state_db@[k]
                    == old(self).state_db@[k],
            valid_datetime(final(self).state_db@[path@]),
            final(self).dry_run == old(self).dry_run,
            final(self).force == old(self).force,
            final(self).verbose == old(self).verbose,
    {
        self.state_db.update(path);
    }
}

// ---------------------------------------------------------------- laws

/// An empty file under `notifempty` is never rotated, not even when forced.
pub proof fn law_empty_file_kept_with_notifempty(cfg: ConfigView, force: bool, due: bool)
    requires
        cfg.notifempty == Some(true),
    ensures
        !check_rotates(decide(0, cfg, force, due)),
{
}

/// A forced rotation happens to every file but an empty one under
/// `notifempty`.
pub proof fn law_forced_rotation(size: u64, cfg: ConfigView, due: bool)
    requires
        !(size == 0 && cfg.notifempty == Some(true)),
    ensures
        check_rotates(decide(size, cfg, true, due)),
{
}

/// A file larger than `size` is rotated whether or not its time is due.
pub proof fn law_over_size_rotates(size: u64, cfg: ConfigView, force: bool, due: bool)
    requires
        cfg.size is Some,
        size > cfg.size->0,
    ensures
        check_rotates(decide(size, cfg, force, due)),
{
}

/// Without force, a file whose time is not due is rotated only for being
/// larger than `size` or `maxsize`.
pub proof fn law_not_due_needs_size(size: u64, cfg: ConfigView)
    ensures
        check_rotates(decide(size, cfg, false, false)) ==> (cfg.size is Some && size > cfg.size->0)
            || (cfg.maxsize is Some && size > cfg.maxsize->0),
{
}

/// With shared scripts the files' own steps are their rotations alone: the
/// scripts run once for the whole block.
pub proof fn law_shared_scripts_run_once(cfg: ConfigView, files: Seq<Seq<char>>)
    requires
        is_shared(cfg),
    ensures
        files_steps(cfg, files) == files.map_values(|f: Seq<char>| StepView::Rotate { file: f }),
    decreases files.len(),
{
    if files.len() > 0 {
        law_shared_scripts_run_once(cfg, files.drop_last());
        assert(files_steps(cfg, files) =~= files.map_values(
            |f: Seq<char>| StepView::Rotate { file: f },
        ));
    } else {
        assert(files_steps(cfg, files) =~= files.map_values(
            |f: Seq<char>| StepView::Rotate { file: f },
        ));
    }
}

/// The file that the operation copies or moves the log file to, where it
/// is a copy or a rename.
pub open spec fn copy_target(op: OpView) -> Option<Seq<char>> {
    match op {
        OpView::Rename { to, .. } => Some(to),
        OpView::Copy { to, .. } => Some(to),
        _ => None,
    }
}

/// Whether the operation at `i` copies or moves the log file at `path`,
/// the one two places on compresses that copy, and the next removes it.
pub open spec fn compresses_new_copy(ops: Seq<OpView>, path: Seq<char>, i: int) -> bool {
    &&& 0 <= i && i + 3 < ops.len()
    &&& (ops[i] matches OpView::Rename { from, .. } && from == path) || (ops[i] matches OpView::Copy {
        from,
        ..
    } && from == path)
    &&& copy_target(ops[i]) matches Some(copy) && ops[i + 2] matches OpView::Compress { from, .. }
        && from == copy && ops[i + 3] == (OpView::Remove { path: copy })
}

/// Where rotated files are compressed at once, a rotation that moves the
/// log file compresses the copy it has just made, then removes it: the
/// compression never reads a file that the rotation has not written.
pub proof fn law_compression_reads_the_new_copy(path: Seq<char>, cfg: ConfigView, suffix: Seq<char>)
    requires
        compress_now(cfg),
        cfg.dateext == Some(true) || (cfg.rotate is Some && cfg.rotate->0 > 0),
    ensures
        exists|i: int| #[trigger] compresses_new_copy(rotation_ops(path, cfg, suffix), path, i),
{
    let ops = rotation_ops(path, cfg, suffix);
    let base = dest_base(path, cfg);
    let name = file_name_or_empty(path);
    let prep: Seq<OpView> = if cfg.olddir is Some {
        seq![OpView::CreateDirAll { dir: base }]
    } else {
        seq![]
    };
    if cfg.dateext == Some(true) {
        let plain = join_path(base, name + suffix);
        let gz = plain + seq!['.', 'g', 'z'];
        let i = prep.len() as int;
        assert(ops[i + 2] == (OpView::Compress { from: plain, to: gz }));
        assert(compresses_new_copy(ops, path, i));
    } else {
        let max = cfg.rotate->0;
        let staged = join_path(base, name + seq!['.', '1']);
        let d1 = rotated_path(base, name, 1, cfg);
        let shifts = shift_ops(base, name, (max - 1) as nat, cfg);
        let i = (prep.len() + 1 + shifts.len()) as int;
        assert(ops[i + 2] == (OpView::Compress { from: staged, to: d1 }));
        assert(compresses_new_copy(ops, path, i));
    }
}

/// Whether the path ends in `.gz`.
pub open spec fn is_gz(p: Seq<char>) -> bool {
    p.len() >= 3 && p.subrange(p.len() - 3, p.len() as int) == seq!['.', 'g', 'z']
}

proof fn lemma_join_keeps_ending(base: Seq<char>, x: Seq<char>)
    requires
        x.len() >= 3 || (x.len() > 0 && x.last() != 'z'),
    ensures
        is_gz(join_path(base, x)) == is_gz(x),
{
    let j = join_path(base, x);
    assert(j.last() == x.last());
    if x.len() >= 3 {
        assert(j.subrange(j.len() - 3, j.len() as int) =~= x.subrange(x.len() - 3, x.len() as int));
    } else if is_gz(j) {
        assert(j.subrange(j.len() - 3, j.len() as int)[2] == j.last());
    }
}

proof fn lemma_rotated_path_gz(base: Seq<char>, name: Seq<char>, index: nat, cfg: ConfigView)
    requires
        index >= 1,
        cfg.compress == Some(true),
    ensures
        is_gz(rotated_path(base, name, index, cfg)) == !(cfg.delaycompress == Some(true) && index == 1),
{
    crate::text::lemma_decimal_digits(index);
    let x = rotated_name(name, index, cfg);
    let d = decimal(index);
    lemma_join_keeps_ending(base, x);
    if !(cfg.delaycompress == Some(true) && index == 1) {
        assert(x.subrange(x.len() - 3, x.len() as int) =~= seq!['.', 'g', 'z']);
    } else {
        assert(x.last() == d.last());
        assert(crate::text::is_digit(d[d.len() - 1]));
    }
}

/// With compression, shifting the rotated files keeps each one as it was,
/// compressed or not: under `delaycompress` the uncompressed number 1
/// becomes the uncompressed number 2 (compressed afterwards), and every
/// compressed file goes to a `.gz` name.
pub proof fn law_shift_keeps_compression(
    base: Seq<char>,
    name: Seq<char>,
    highest: nat,
    cfg: ConfigView,
    k: int,
)
    requires
        cfg.compress == Some(true),
        0 <= k < highest,
    ensures
        shift_ops(base, name, highest, cfg)[k] matches OpView::RenameIfExists { from, to } && (
        is_gz(from) <==> is_gz(to)),
{
    let index = (highest - k) as nat;
    lemma_rotated_path_gz(base, name, index, cfg);
    if index == 1 && cfg.delaycompress == Some(true) {
        let x = name + seq!['.', '2'];
        lemma_join_keeps_ending(base, x);
        assert(x.last() == '2');
    } else {
        lemma_rotated_path_gz(base, name, index + 1, cfg);
    }
}

/// With `rotate` set, the copy that a `dateext` rotation writes, plain or
/// compressed, is one of the dated copies that the removal of copies
/// beyond `rotate` counts: its date is the one chrono wrote, which it
/// reads back.
pub proof fn law_rotated_copy_is_counted(
    r: Result<Rotation, RotateError>,
    path: Seq<char>,
    cfg: ConfigView,
    now: DateTime,
    offset: i32,
)
    requires
        cfg.rotate is Some,
        rotation_outcome(r, path, cfg, now, offset),
        r is Ok,
    ensures
        ({
            let fmt = date_format_spec(cfg);
            let t = strftime_text(fmt, now, offset)->0;
            let name = file_name_or_empty(path);
            &&& applies_plan(r, path, cfg, t)
            &&& is_dated_copy(name + t, name, fmt)
            &&& is_dated_copy(name + t + seq!['.', 'g', 'z'], name, fmt)
        }),
{
    let fmt = date_format_spec(cfg);
    let t = strftime_text(fmt, now, offset)->0;
    crate::retention::lemma_written_copy_is_dated(file_name_or_empty(path), fmt, t);
}

/// Which files are rotated: all but an empty one under `notifempty`, and
/// of those the ones that are forced, whose time is due, or that are
/// larger than `size` or `maxsize`. Without `notifempty`, an empty file is
/// rotated like any other.
pub proof fn law_which_files_rotate(size: u64, cfg: ConfigView, force: bool, due: bool)
    ensures
        check_rotates(decide(size, cfg, force, due)) <==> (!(size == 0 && cfg.notifempty == Some(true))
            && (force || due || (cfg.size is Some && size > cfg.size->0) || (cfg.maxsize is Some
            && size > cfg.maxsize->0))),
        cfg.notifempty != Some(true) && due ==> check_rotates(decide(size, cfg, force, due)),
        decide(size, cfg, force, due) == FileCheck::Empty <==> (size == 0 && cfg.notifempty == Some(
            true,
        )),
{
}

/// Unless `sharedscripts` is on, scripts run for each file: each file that
/// is rotated gets its own `prerotate` run with its path before its
/// rotation and its own `postrotate` run after it, and no script runs with
/// the block's paths joined.
pub proof fn law_unshared_scripts_run_per_file(
    paths: Seq<Seq<char>>,
    cfg: ConfigView,
    files: Seq<Seq<char>>,
    f: Seq<char>,
)
    requires
        cfg.sharedscripts != Some(true),
        cfg.prerotate is Some,
        cfg.postrotate is Some,
    ensures
        file_steps(cfg, f) == seq![
            StepView::RunScript { script: cfg.prerotate->0, arg: f },
            StepView::Rotate { file: f },
            StepView::RunScript { script: cfg.postrotate->0, arg: f },
        ],
        entry_steps_spec(paths, cfg, files) == files_steps(cfg, files),
        files_steps(cfg, files).len() == 3 * files.len(),
    decreases files.len(),
{
    assert(file_steps(cfg, f) =~= seq![
        StepView::RunScript { script: cfg.prerotate->0, arg: f },
        StepView::Rotate { file: f },
        StepView::RunScript { script: cfg.postrotate->0, arg: f },
    ]);
    if files.len() > 0 {
        law_unshared_scripts_run_per_file(paths, cfg, files.drop_last(), files.last());
        assert(entry_steps_spec(paths, cfg, files) =~= files_steps(cfg, files));
    }
}

} // verus!
