//! The rotation state: when each log file was last rotated, kept in a
//! state file of one line per file.
use vstd::prelude::*;
use crate::datetime::{
    datetime_from_parts, elapsed_seconds, elapsed_whole_seconds, local_now, valid_date,
    valid_datetime, valid_time, DateTime,
};
use crate::text::{
    fields_from, is_ws, lemma_decimal_digits, lemma_fields_digits_sep,
    lemma_fields_from_append, lemma_fields_from_plain, lemma_fields_state_is_from,
    lemma_lines_from_append, lemma_lines_from_plain, lemma_lines_state_append, lines_from,
    lines_state, strip_cr, is_date_sep, is_digit,
    lemma_find_char, strip_end, strip_start, ws_pred, chars_eq, chars_lt, decimal, eq_str, find_char, find_char_from, lemma_lt_irreflexive,
    lemma_lt_total, lemma_lt_transitive, parse_i32_chars, parse_i32_spec, parse_unsigned,
    parse_unsigned_chars, push_chars, push_decimal, push_signed_decimal, seq_lt, signed_decimal,
    split_date_fields, split_date_fields_chars, split_lines, split_lines_chars, str_chars,
    sub_chars, trim, trim_chars, views,
};

verus! {

/// A field of a stored date-time as `str::parse::<u32>().unwrap_or(default)`.
pub open spec fn field_or(p: Seq<char>, default: u32) -> u32 {
    match parse_unsigned(p, u32::MAX as nat) {
        Some(v) => v as u32,
        None => default,
    }
}

/// The year field as `str::parse::<i32>().unwrap_or(default)`.
pub open spec fn year_field_or(p: Seq<char>, default: i32) -> i32 {
    match parse_i32_spec(p) {
        Some(v) => v as i32,
        None => default,
    }
}

/// What a line of the state file records: the path between the first two
/// `"`, and the date-time after them as
/// `year-month-day-hour:minute:second` (a field that does not parse
/// counts as 1970, 1, 1, 0, 0, 0 in turn); nothing where the line has no
/// two quotes, fewer than six fields, or a date-time that does not exist.
pub open spec fn parse_state_line(line: Seq<char>) -> Option<(Seq<char>, DateTime)> {
    let l = trim(line);
    match find_char(l, '"') {
        None => None,
        Some(q1) => {
            let after = l.skip(q1 + 1);
            match find_char(after, '"') {
                None => None,
                Some(q2) => {
                    let key = after.take(q2);
                    let parts = split_date_fields(trim(after.skip(q2 + 1)));
                    if parts.len() >= 6 {
                        let y = year_field_or(parts[0], 1970);
                        let mo = field_or(parts[1], 1);
                        let d = field_or(parts[2], 1);
                        let h = field_or(parts[3], 0);
                        let mi = field_or(parts[4], 0);
                        let s = field_or(parts[5], 0);
                        if valid_date(y as int, mo as int, d as int) && valid_time(
                            h as int,
                            mi as int,
                            s as int,
                        ) {
                            Some(
                                (
                                    key,
                                    DateTime {
                                        year: y,
                                        month: mo,
                                        day: d,
                                        hour: h,
                                        minute: mi,
                                        second: s,
                                        nanosecond: 0,
                                    },
                                ),
                            )
                        } else {
                            None
                        }
                    } else {
                        None
                    }
                },
            }
        },
    }
}

/// The records of the given lines, a later record of a path replacing an
/// earlier one.
pub open spec fn load_lines(lines: Seq<Seq<char>>) -> Map<Seq<char>, DateTime>
    decreases lines.len(),
{
    if lines.len() == 0 {
        Map::empty()
    } else {
        let m = load_lines(lines.drop_last());
        match parse_state_line(lines.last()) {
            Some((k, v)) => m.insert(k, v),
            None => m,
        }
    }
}

/// The records of a state file: its lines after the first (the header).
pub open spec fn parse_state(content: Seq<char>) -> Map<Seq<char>, DateTime> {
    let ls = split_lines(content);
    if ls.len() == 0 {
        Map::empty()
    } else {
        load_lines(ls.skip(1))
    }
}

/// The first line of a state file that this library writes.
pub open spec fn state_header() -> Seq<char> {
    "logrotate state -- version 2\n"@
}

/// The date-time as the state file writes it:
/// `year-month-day-hour:minute:second`, numbers without padding.
pub open spec fn date_text(dt: DateTime) -> Seq<char> {
    signed_decimal(dt.year as int) + seq!['-'] + decimal(dt.month as nat) + seq!['-'] + decimal(
        dt.day as nat,
    ) + seq!['-'] + decimal(dt.hour as nat) + seq![':'] + decimal(dt.minute as nat) + seq![':']
        + decimal(dt.second as nat)
}

/// The line (without its line ending) that records `dt` for path `k`:
/// `"k" ` followed by the date-time.
pub open spec fn record_line(k: Seq<char>, dt: DateTime) -> Seq<char> {
    seq!['"'] + k + seq!['"', ' '] + date_text(dt)
}

/// The line that records `dt` for path `k`, with its line ending.
pub open spec fn render_pair(k: Seq<char>, dt: DateTime) -> Seq<char> {
    record_line(k, dt) + seq!['\n']
}

/// The lines that record the given pairs, in order.
pub open spec fn render_pairs(s: Seq<(Seq<char>, DateTime)>) -> Seq<char>
    decreases s.len(),
{
    if s.len() == 0 {
        seq![]
    } else {
        render_pairs(s.drop_last()) + render_pair(s.last().0, s.last().1)
    }
}

/// Pairs in strictly increasing order of their paths.
pub open spec fn sorted_by_key(s: Seq<(Seq<char>, DateTime)>) -> bool {
    forall|i: int, j: int| 0 <= i < j < s.len() ==> seq_lt(#[trigger] s[i].0, #[trigger] s[j].0)
}

/// The map that a sequence of pairs with distinct paths stands for.
pub open spec fn pairs_map(s: Seq<(Seq<char>, DateTime)>) -> Map<Seq<char>, DateTime> {
    Map::new(|k: Seq<char>| has_key(s, k), |k: Seq<char>| s[key_index(s, k)].1)
}

/// Whether some pair has path `k`.
pub open spec fn has_key(s: Seq<(Seq<char>, DateTime)>, k: Seq<char>) -> bool {
    exists|i: int| 0 <= i < s.len() && s[i].0 == k
}

/// An index of a pair with path `k`.
pub open spec fn key_index(s: Seq<(Seq<char>, DateTime)>, k: Seq<char>) -> int {
    choose|i: int| 0 <= i < s.len() && s[i].0 == k
}

pub open spec fn entry_pairs(es: Seq<(Vec<char>, DateTime)>) -> Seq<(Seq<char>, DateTime)> {
    es.map_values(|e: (Vec<char>, DateTime)| (e.0@, e.1))
}

/// Whether a rotation with `frequency` is due at `now` for `path`, last
/// rotated as `m` records: always where `m` has no record of it; for
/// `hourly`, `daily` and `weekly`, once an hour, a day or a week has
/// passed; for `monthly` and `yearly`, once the month or year differs or
/// 31 or 365 days have passed; never for another frequency.
pub open spec fn rotation_due(
    m: Map<Seq<char>, DateTime>,
    path: Seq<char>,
    frequency: Seq<char>,
    now: DateTime,
) -> bool {
    if !m.contains_key(path) {
        true
    } else {
        let last = m[path];
        let secs = elapsed_seconds(now, last);
        if frequency == "hourly"@ {
            secs >= 3600
        } else if frequency == "daily"@ {
            secs >= 86400
        } else if frequency == "weekly"@ {
            secs >= 7 * 86400
        } else if frequency == "monthly"@ {
            last.month != now.month || secs >= 31 * 86400
        } else if frequency == "yearly"@ {
            last.year != now.year || secs >= 365 * 86400
        } else {
            false
        }
    }
}

/// The rotation state: where it is saved, and the last rotation of each
/// log file, in increasing order of path.
pub struct StateDB {
    path: String,
    entries: Vec<(Vec<char>, DateTime)>,
}

impl View for StateDB {
    type V = Map<Seq<char>, DateTime>;

    closed spec fn view(&self) -> Map<Seq<char>, DateTime> {
        pairs_map(self.contents())
    }
}

proof fn lemma_sorted_unique(s: Seq<(Seq<char>, DateTime)>, i: int, j: int)
    requires
        sorted_by_key(s),
        0 <= i < s.len(),
        0 <= j < s.len(),
        s[i].0 == s[j].0,
    ensures
        i == j,
{
    if i < j {
        assert(seq_lt(s[i].0, s[j].0));
        lemma_lt_irreflexive(s[i].0);
    } else if j < i {
        assert(seq_lt(s[j].0, s[i].0));
        lemma_lt_irreflexive(s[i].0);
    }
}

proof fn lemma_pairs_map_at(s: Seq<(Seq<char>, DateTime)>, i: int)
    requires
        sorted_by_key(s),
        0 <= i < s.len(),
    ensures
        pairs_map(s).contains_key(s[i].0),
        pairs_map(s)[s[i].0] == s[i].1,
{
    let k = s[i].0;
    assert(exists|j: int| 0 <= j < s.len() && s[j].0 == k);
    let j = key_index(s, k);
    lemma_sorted_unique(s, i, j);
    assert(pairs_map(s).contains_key(k));
    assert(pairs_map(s)[k] == s[j].1);
}

proof fn lemma_map_values_valid(s: Seq<(Seq<char>, DateTime)>)
    requires
        sorted_by_key(s),
        forall|i: int| 0 <= i < s.len() ==> valid_datetime(#[trigger] s[i].1),
    ensures
        forall|k: Seq<char>| #[trigger] pairs_map(s).contains_key(k) ==> valid_datetime(
            pairs_map(s)[k],
        ),
{
    assert forall|k: Seq<char>| #[trigger] pairs_map(s).contains_key(k) implies valid_datetime(
        pairs_map(s)[k],
    ) by {
        let i = choose|i: int| 0 <= i < s.len() && s[i].0 == k;
        lemma_pairs_map_at(s, i);
    }
}

/// What a line of the state file records.
fn parse_state_line_chars(line: &Vec<char>) -> (r: Option<(Vec<char>, DateTime)>)
    ensures
        match r {
            Some((k, dt)) => parse_state_line(line@) == Some((k@, dt)),
            None => parse_state_line(line@) is None,
        },
{
    let l = trim_chars(line);
    assert(l@.skip(0) =~= l@);
    let q1 = match find_char_from(&l, 0, '"') {
        Some(q) => q,
        None => return None,
    };
    let ghost after = l@.skip(q1 + 1);
    let q2 = match find_char_from(&l, q1 + 1, '"') {
        Some(q) => q,
        None => return None,
    };
    let key = sub_chars(&l, q1 + 1, q2);
    assert(key@ =~= after.take(q2 - q1 - 1));
    let rest = trim_chars(&sub_chars(&l, q2 + 1, l.len()));
    assert(l@.subrange(q2 + 1, l@.len() as int) =~= after.skip(q2 - q1 - 1 + 1));
    let parts = split_date_fields_chars(&rest);
    if parts.len() < 6 {
        return None;
    }
    assert(views(parts@)[0] == parts@[0]@);
    assert(views(parts@)[1] == parts@[1]@);
    assert(views(parts@)[2] == parts@[2]@);
    assert(views(parts@)[3] == parts@[3]@);
    assert(views(parts@)[4] == parts@[4]@);
    assert(views(parts@)[5] == parts@[5]@);
    let year = match parse_i32_chars(&parts[0]) {
        Some(v) => v,
        None => 1970,
    };
    let month = u32_field_or(&parts[1], 1);
    let day = u32_field_or(&parts[2], 1);
    let hour = u32_field_or(&parts[3], 0);
    let minute = u32_field_or(&parts[4], 0);
    let second = u32_field_or(&parts[5], 0);
    match datetime_from_parts(year, month, day, hour, minute, second) {
        Some(dt) => Some((key, dt)),
        None => None,
    }
}

fn u32_field_or(p: &Vec<char>, default: u32) -> (r: u32)
    ensures
        r == field_or(p@, default),
{
    match parse_unsigned_chars(p, 0xFFFF_FFFF) {
        Some(v) => v as u32,
        None => default,
    }
}

/// Appends the line that records `dt` for `key`.
fn push_record(out: &mut String, key: &Vec<char>, dt: DateTime)
    ensures
        final(out)@ == old(out)@ + render_pair(key@, dt),
{
    let ghost before = out@;
    out.push('"');
    push_chars(out, key);
    out.push('"');
    out.push(' ');
    push_signed_decimal(out, dt.year);
    out.push('-');
    push_decimal(out, dt.month as u64);
    out.push('-');
    push_decimal(out, dt.day as u64);
    out.push('-');
    push_decimal(out, dt.hour as u64);
    out.push(':');
    push_decimal(out, dt.minute as u64);
    out.push(':');
    push_decimal(out, dt.second as u64);
    out.push('\n');
    assert(out@ =~= before + render_pair(key@, dt));
}

impl StateDB {
    /// The state read from a state file's content (`None` where the file
    /// does not exist, which gives an empty state), to be saved at
    /// `path_str`.
    pub fn load(path_str: &str, content: Option<&str>) -> (r: StateDB)
        ensures
            r.path_view() == path_str@,
            r@ == match content {
                None => Map::<Seq<char>, DateTime>::empty(),
                Some(c) => parse_state(c@),
            },
    {
        let mut db = StateDB::new(path_str);
        let c = match content {
            None => return db,
            Some(c) => c,
        };
        let chars = str_chars(c);
        let lines = split_lines_chars(&chars);
        let ghost ls = views(lines@);
        if lines.len() == 0 {
            return db;
        }
        assert(ls.skip(1).take(0) =~= Seq::<Seq<char>>::empty());
        assert(db@ =~= load_lines(ls.skip(1).take(0)));
        for i in 1..lines.len()
            invariant
                lines.len() >= 1,
                ls == views(lines@),
                db.path_view() == path_str@,
                db@ == load_lines(ls.skip(1).take(i - 1)),
        {
            assert(ls[i as int] == lines@[i as int]@);
            match parse_state_line_chars(&lines[i]) {
                Some((k, dt)) => {
                    db.insert_entry(k, dt);
                },
                None => {},
            }
            assert(ls.skip(1).take(i as int).drop_last() =~= ls.skip(1).take(i - 1));
            assert(ls.skip(1).take(i as int).last() == ls[i as int]);
        }
        assert(ls.skip(1).take(lines.len() - 1) =~= ls.skip(1));
        db
    }

    /// The content of the state file: the header line, then one line per
    /// record in increasing order of path.
    pub fn save(&self) -> (r: String)
        ensures
            r@ == state_header() + render_pairs(self.contents()),
            sorted_by_key(self.contents()),
            pairs_map(self.contents()) == self@,
            forall|i: int|
                0 <= i < self.contents().len() ==> valid_datetime(#[trigger] self.contents()[i].1),
    {
        proof {
            use_type_invariant(self);
        }
        let ghost s = self.contents();
        let mut out = String::new();
        let header = str_chars("logrotate state -- version 2\n");
        push_chars(&mut out, &header);
        assert(out@ =~= state_header() + render_pairs(s.take(0)));
        for i in 0..self.entries.len()
            invariant
                s == self.contents(),
                out@ == state_header() + render_pairs(s.take(i as int)),
        {
            let ghost before = out@;
            let key = &self.entries[i].0;
            let dt = self.entries[i].1;
            push_record(&mut out, key, dt);
            assert(s[i as int] == (key@, dt));
            assert(s.take(i + 1).drop_last() =~= s.take(i as int));
        }
        assert(s.take(self.entries.len() as int) =~= s);
        out
    }

    /// The records in increasing order of path.
    pub closed spec fn contents(&self) -> Seq<(Seq<char>, DateTime)> {
        entry_pairs(self.entries@)
    }

    /// Where the state is saved.
    pub closed spec fn path_view(&self) -> Seq<char> {
        self.path@
    }

    #[verifier::type_invariant]
    closed spec fn inv(&self) -> bool {
        &&& sorted_by_key(self.contents())
        &&& forall|i: int| 0 <= i < self.contents().len() ==> valid_datetime(#[trigger] self.contents()[i].1)
    }

    /// An empty state to be saved at `path_str`.
    pub fn new(path_str: &str) -> (r: StateDB)
        ensures
            r@ == Map::<Seq<char>, DateTime>::empty(),
            r.path_view() == path_str@,
    {
        let r = StateDB { path: String::from_str(path_str), entries: Vec::new() };
        assert(r@ =~= Map::<Seq<char>, DateTime>::empty());
        r
    }

    /// Where the state is saved.
    pub fn path(&self) -> (r: String)
        ensures
            r@ == self.path_view(),
    {
        self.path.clone()
    }

    /// The last rotation recorded for `path`.
    pub fn get(&self, path: &str) -> (r: Option<DateTime>)
        ensures
            r == (if self@.contains_key(path@) {
                Some(self@[path@])
            } else {
                None
            }),
    {
        proof {
            use_type_invariant(self);
        }
        let key = str_chars(path);
        let ghost s = self.contents();
        for i in 0..self.entries.len()
            invariant
                s == self.contents(),
                sorted_by_key(s),
                key@ == path@,
                forall|j: int| 0 <= j < i ==> s[j].0 != key@,
        {
            if chars_eq(&self.entries[i].0, &key) {
                proof {
                    assert(s[i as int].0 == key@);
                    lemma_pairs_map_at(s, i as int);
                }
                return Some(self.entries[i].1);
            }
            assert(s[i as int].0 != key@);
        }
        assert(!self@.contains_key(path@));
        None
    }

    /// Records `time` as the last rotation of `key`, replacing any record
    /// of it.
    fn insert_entry(&mut self, key: Vec<char>, time: DateTime)
        requires
            valid_datetime(time),
        ensures
            final(self)@ == old(self)@.insert(key@, time),
            final(self).path_view() == old(self).path_view(),
    {
        proof {
            use_type_invariant(&*self);
        }
        let ghost s = self.contents();
        let mut es: Vec<(Vec<char>, DateTime)> = Vec::new();
        std::mem::swap(&mut es, &mut self.entries);
        assert(entry_pairs(es@) == s);
        let mut p: usize = 0;
        while p < es.len() && chars_lt(&es[p].0, &key)
            invariant
                0 <= p <= es.len(),
                entry_pairs(es@) == s,
                forall|i: int| 0 <= i < p ==> seq_lt(#[trigger] s[i].0, key@),
            decreases es.len() - p,
        {
            assert(s[p as int].0 == es@[p as int].0@);
            p = p + 1;
        }
        let ghost e = (key@, time);
        if p < es.len() && chars_eq(&es[p].0, &key) {
            assert(s[p as int].0 == key@);
            es.set(p, (key, time));
            let ghost t = entry_pairs(es@);
            assert(t =~= s.update(p as int, e));
            assert(sorted_by_key(t));
            assert forall|x: Seq<char>| #[trigger] pairs_map(t).contains_key(x) <==> pairs_map(
                s,
            ).insert(key@, time).contains_key(x) by {
                if exists|i: int| 0 <= i < t.len() && t[i].0 == x {
                    let i = choose|i: int| 0 <= i < t.len() && t[i].0 == x;
                    assert(s[i].0 == x);
                }
                if exists|i: int| 0 <= i < s.len() && s[i].0 == x {
                    let i = choose|i: int| 0 <= i < s.len() && s[i].0 == x;
                    assert(t[i].0 == x);
                }
            }
            assert forall|x: Seq<char>| #[trigger] pairs_map(t).contains_key(x) implies pairs_map(
                t,
            )[x] == pairs_map(s).insert(key@, time)[x] by {
                let i = choose|i: int| 0 <= i < t.len() && t[i].0 == x;
                lemma_pairs_map_at(t, i);
                if i != p {
                    lemma_pairs_map_at(s, i);
                }
            }
            assert(pairs_map(t) =~= pairs_map(s).insert(key@, time));
        } else {
            proof {
                if p < es.len() {
                    assert(s[p as int].0 == es@[p as int].0@);
                    assert(!seq_lt(s[p as int].0, key@));
                    lemma_lt_total(s[p as int].0, key@);
                }
            }
            es.insert(p, (key, time));
            let ghost t = entry_pairs(es@);
            assert(t =~= s.insert(p as int, e));
            assert forall|i: int, j: int| 0 <= i < j < t.len() implies seq_lt(
                #[trigger] t[i].0,
                #[trigger] t[j].0,
            ) by {
                if j < p {
                    assert(seq_lt(s[i].0, s[j].0));
                } else if j == p {
                    assert(seq_lt(s[i].0, key@));
                } else if i == p {
                    if j - 1 > p {
                        assert(seq_lt(s[p as int].0, s[j - 1].0));
                        lemma_lt_transitive(key@, s[p as int].0, s[j - 1].0);
                    }
                } else if i < p {
                    assert(seq_lt(s[i].0, s[j - 1].0));
                } else {
                    assert(seq_lt(s[i - 1].0, s[j - 1].0));
                }
            }
            assert forall|x: Seq<char>| #[trigger] pairs_map(t).contains_key(x) <==> pairs_map(
                s,
            ).insert(key@, time).contains_key(x) by {
                if exists|i: int| 0 <= i < t.len() && t[i].0 == x {
                    let i = choose|i: int| 0 <= i < t.len() && t[i].0 == x;
                    if i < p {
                        assert(s[i].0 == x);
                    } else if i > p {
                        assert(s[i - 1].0 == x);
                    }
                }
                if exists|i: int| 0 <= i < s.len() && s[i].0 == x {
                    let i = choose|i: int| 0 <= i < s.len() && s[i].0 == x;
                    if i < p {
                        assert(t[i].0 == x);
                    } else {
                        assert(t[i + 1].0 == x);
                    }
                }
                if x == key@ {
                    assert(t[p as int].0 == x);
                }
            }
            assert forall|x: Seq<char>| #[trigger] pairs_map(t).contains_key(x) implies pairs_map(
                t,
            )[x] == pairs_map(s).insert(key@, time)[x] by {
                let i = choose|i: int| 0 <= i < t.len() && t[i].0 == x;
                lemma_pairs_map_at(t, i);
                lemma_lt_irreflexive(key@);
                if i < p {
                    lemma_pairs_map_at(s, i);
                    assert(t[i] == s[i]);
                    assert(seq_lt(s[i].0, key@));
                } else if i > p {
                    lemma_pairs_map_at(s, i - 1);
                    assert(t[i] == s[i - 1]);
                    assert(seq_lt(t[p as int].0, t[i].0));
                }
            }
            assert(pairs_map(t) =~= pairs_map(s).insert(key@, time));
        }
        self.entries = es;
    }

    /// Records `now` as the last rotation of `path`.
    pub fn update_at(&mut self, path: &str, now: DateTime)
        requires
            valid_datetime(now),
        ensures
            final(self)@ == old(self)@.insert(path@, now),
            final(self).path_view() == old(self).path_view(),
    {
        let key = str_chars(path);
        self.insert_entry(key, now);
    }

    /// Records the current local time as the last rotation of `path`.
    pub fn update(&mut self, path: &str)
        ensures
            final(self)@.dom() == old(self)@.dom().insert(path@),
            forall|k: Seq<char>|
                k != path@ && #[trigger] old(self)@.contains_key(k) ==> final(self)@[k] == old(self)@[k],
            valid_datetime(final(self)@[path@]),
            final(self).path_view() == old(self).path_view(),
    {
        let now = local_now();
        self.update_at(path, now);
    }

    /// Whether a rotation of `path` with `frequency` is due at `now`.
    pub fn should_rotate_at(&self, path: &str, frequency: &str, now: DateTime) -> (r: bool)
        requires
            valid_datetime(now),
        ensures
            r == rotation_due(self@, path@, frequency@, now),
    {
        proof {
            use_type_invariant(self);
            lemma_map_values_valid(self.contents());
        }
        let last = match self.get(path) {
            None => return true,
            Some(dt) => dt,
        };
        let secs = elapsed_whole_seconds(&now, &last);
        let f = str_chars(frequency);
        if eq_str(&f, "hourly") {
            secs >= 3600
        } else if eq_str(&f, "daily") {
            secs >= 86400
        } else if eq_str(&f, "weekly") {
            secs >= 7 * 86400
        } else if eq_str(&f, "monthly") {
            last.month != now.month || secs >= 31 * 86400
        } else if eq_str(&f, "yearly") {
            last.year != now.year || secs >= 365 * 86400
        } else {
            false
        }
    }

    /// Whether a rotation of `path` with `frequency` is due now, by the
    /// current local time.
    pub fn should_rotate(&self, path: &str, frequency: &str) -> (r: bool)
        ensures
            exists|now: DateTime| valid_datetime(now) && r == rotation_due(
                self@,
                path@,
                frequency@,
                now,
            ),
            !self@.contains_key(path@) ==> r,
    {
        let now = local_now();
        self.should_rotate_at(path, frequency, now)
    }
}

// ---------------------------------------------------------------- saving then loading

/// The date-time without its fraction of a second, as the state file keeps it.
pub open spec fn zero_nanos(dt: DateTime) -> DateTime {
    DateTime { nanosecond: 0, ..dt }
}

#[verifier::spinoff_prover]
#[verifier::rlimit(40)]
proof fn lemma_date_fields(dt: DateTime)
    requires
        dt.year >= 0,
    ensures
        split_date_fields(date_text(dt)) == seq![
            decimal(dt.year as nat),
            decimal(dt.month as nat),
            decimal(dt.day as nat),
            decimal(dt.hour as nat),
            decimal(dt.minute as nat),
            decimal(dt.second as nat),
        ],
{
    let d0 = decimal(dt.year as nat);
    let d1 = decimal(dt.month as nat);
    let d2 = decimal(dt.day as nat);
    let d3 = decimal(dt.hour as nat);
    let d4 = decimal(dt.minute as nat);
    let d5 = decimal(dt.second as nat);
    lemma_decimal_digits(dt.year as nat);
    lemma_decimal_digits(dt.month as nat);
    lemma_decimal_digits(dt.day as nat);
    lemma_decimal_digits(dt.hour as nat);
    lemma_decimal_digits(dt.minute as nat);
    lemma_decimal_digits(dt.second as nat);
    let p0 = d0 + seq!['-'];
    let p1 = d1 + seq!['-'];
    let p2 = d2 + seq!['-'];
    let p3 = d3 + seq![':'];
    let p4 = d4 + seq![':'];
    let text = date_text(dt);
    assert(signed_decimal(dt.year as int) == d0);
    assert(text =~= p0 + p1 + p2 + p3 + p4 + d5);
    let e = Seq::<Seq<char>>::empty();
    let z = Seq::<char>::empty();
    lemma_fields_state_is_from(text);
    let st0 = (e, z);
    lemma_fields_from_append(st0, p0 + p1 + p2 + p3 + p4, d5);
    lemma_fields_from_append(st0, p0 + p1 + p2 + p3, p4);
    lemma_fields_from_append(st0, p0 + p1 + p2, p3);
    lemma_fields_from_append(st0, p0 + p1, p2);
    lemma_fields_from_append(st0, p0, p1);
    lemma_fields_digits_sep(st0, d0, '-');
    let st1 = fields_from(st0, p0);
    lemma_fields_digits_sep(st1, d1, '-');
    let st2 = fields_from(st1, p1);
    lemma_fields_digits_sep(st2, d2, '-');
    let st3 = fields_from(st2, p2);
    lemma_fields_digits_sep(st3, d3, ':');
    let st4 = fields_from(st3, p3);
    lemma_fields_digits_sep(st4, d4, ':');
    let st5 = fields_from(st4, p4);
    assert forall|i: int| 0 <= i < d5.len() implies !crate::text::is_date_sep(#[trigger] d5[i]) by {
        assert(crate::text::is_digit(d5[i]));
    }
    lemma_fields_from_plain(st5, d5);
    assert(st5.1 + d5 =~= d5);
    let fin = fields_from(st5, d5);
    assert(fin.0.push(fin.1) =~= seq![d0, d1, d2, d3, d4, d5]);
}

proof fn lemma_decimal_parses(n: nat, max: nat)
    requires
        n <= max,
    ensures
        parse_unsigned(decimal(n), max) == Some(n),
{
    lemma_decimal_digits(n);
    let d = decimal(n);
    assert(crate::text::is_digit(d[0]));
}

proof fn lemma_trim_clean(x: Seq<char>)
    requires
        x.len() > 0,
        !is_ws(x[0]),
        !is_ws(x.last()),
    ensures
        trim(x) == x,
{
    assert(strip_start(x, ws_pred()) == x);
    assert(strip_end(x, ws_pred()) == x);
}

/// A record line reads back as the path and date-time it records.
proof fn lemma_record_line_parses(k: Seq<char>, dt: DateTime)
    requires
        valid_datetime(dt),
        dt.year >= 0,
        !k.contains('"'),
    ensures
        parse_state_line(record_line(k, dt)) == Some((k, zero_nanos(dt))),
{
    let text = date_text(dt);
    let l = record_line(k, dt);
    lemma_decimal_digits(dt.year as nat);
    lemma_decimal_digits(dt.second as nat);
    assert(signed_decimal(dt.year as int) == decimal(dt.year as nat));
    assert(text[0] == decimal(dt.year as nat)[0]);
    assert(crate::text::is_digit(text[0]));
    assert(text.last() == decimal(dt.second as nat).last());
    assert(crate::text::is_digit(decimal(dt.second as nat)[decimal(dt.second as nat).len() - 1]));
    assert(l.last() == text.last());
    assert(l[0] == '"');
    lemma_trim_clean(l);
    assert(find_char(l, '"') == Some(0int));
    let after = l.skip(1);
    assert(after =~= k + seq!['"', ' '] + text);
    assert forall|j: int| 0 <= j < k.len() implies after[j] != '"' by {
        assert(after[j] == k[j]);
        if k[j] == '"' {
            assert(k.contains('"'));
        }
    }
    assert(after[k.len() as int] == '"');
    lemma_find_char(after, '"', k.len() as int);
    assert(after.take(k.len() as int) =~= k);
    let rest = after.skip(k.len() as int + 1);
    assert(rest =~= seq![' '] + text);
    assert(rest.drop_first() =~= text);
    assert(strip_start(rest, ws_pred()) == strip_start(text, ws_pred()));
    lemma_trim_clean(text);
    assert(trim(rest) == text);
    lemma_date_fields(dt);
    let parts = split_date_fields(text);
    lemma_decimal_parses(dt.year as nat, 0x7FFF_FFFF);
    assert(decimal(dt.year as nat)[0] != '-') by {
        assert(crate::text::is_digit(decimal(dt.year as nat)[0]));
    }
    assert(year_field_or(parts[0], 1970) == dt.year);
    lemma_decimal_parses(dt.month as nat, u32::MAX as nat);
    lemma_decimal_parses(dt.day as nat, u32::MAX as nat);
    lemma_decimal_parses(dt.hour as nat, u32::MAX as nat);
    lemma_decimal_parses(dt.minute as nat, u32::MAX as nat);
    lemma_decimal_parses(dt.second as nat, u32::MAX as nat);
}

proof fn lemma_date_text_chars(dt: DateTime)
    requires
        dt.year >= 0,
    ensures
        forall|i: int|
            0 <= i < date_text(dt).len() ==> is_digit(#[trigger] date_text(dt)[i]) || is_date_sep(
                date_text(dt)[i],
            ),
{
    lemma_date_fields(dt);
    let d0 = decimal(dt.year as nat);
    let d1 = decimal(dt.month as nat);
    let d2 = decimal(dt.day as nat);
    let d3 = decimal(dt.hour as nat);
    let d4 = decimal(dt.minute as nat);
    let d5 = decimal(dt.second as nat);
    lemma_decimal_digits(dt.year as nat);
    lemma_decimal_digits(dt.month as nat);
    lemma_decimal_digits(dt.day as nat);
    lemma_decimal_digits(dt.hour as nat);
    lemma_decimal_digits(dt.minute as nat);
    lemma_decimal_digits(dt.second as nat);
    let text = date_text(dt);
    assert(signed_decimal(dt.year as int) == d0);
    let a = d0 + seq!['-'] + d1 + seq!['-'] + d2 + seq!['-'];
    let b = d3 + seq![':'] + d4 + seq![':'] + d5;
    assert(text =~= a + b);
    assert forall|i: int| 0 <= i < a.len() implies is_digit(#[trigger] a[i]) || is_date_sep(a[i]) by {
        let a1 = d0 + seq!['-'];
        let a2 = a1 + d1 + seq!['-'];
        if i < a1.len() {
            if i < d0.len() {
                assert(is_digit(d0[i]));
            }
        } else if i < a2.len() {
            if i - a1.len() < d1.len() {
                assert(is_digit(d1[i - a1.len()]));
            }
        } else {
            if i - a2.len() < d2.len() {
                assert(is_digit(d2[i - a2.len()]));
            }
        }
    }
    assert forall|i: int| 0 <= i < b.len() implies is_digit(#[trigger] b[i]) || is_date_sep(b[i]) by {
        let b1 = d3 + seq![':'];
        let b2 = b1 + d4 + seq![':'];
        if i < b1.len() {
            if i < d3.len() {
                assert(is_digit(d3[i]));
            }
        } else if i < b2.len() {
            if i - b1.len() < d4.len() {
                assert(is_digit(d4[i - b1.len()]));
            }
        } else {
            assert(is_digit(d5[i - b2.len()]));
        }
    }
    assert forall|i: int| 0 <= i < text.len() implies is_digit(#[trigger] text[i]) || is_date_sep(
        text[i],
    ) by {
        if i < a.len() {
            assert(text[i] == a[i]);
        } else {
            assert(text[i] == b[i - a.len()]);
        }
    }
}

/// The record lines of the given pairs, in order.
pub open spec fn record_lines(s: Seq<(Seq<char>, DateTime)>) -> Seq<Seq<char>> {
    s.map_values(|e: (Seq<char>, DateTime)| record_line(e.0, e.1))
}

/// A path that the state file can hold: no `"` and no line feed.
pub open spec fn storable_key(k: Seq<char>) -> bool {
    !k.contains('"') && !k.contains('\n')
}

proof fn lemma_record_line_plain(k: Seq<char>, dt: DateTime)
    requires
        dt.year >= 0,
        !k.contains('\n'),
    ensures
        !record_line(k, dt).contains('\n'),
        record_line(k, dt).len() > 0,
        record_line(k, dt).last() != '\r',
{
    lemma_date_text_chars(dt);
    let text = date_text(dt);
    let l = record_line(k, dt);
    lemma_decimal_digits(dt.second as nat);
    assert(text.len() > 0) by {
        lemma_date_fields(dt);
        assert(text.last() == decimal(dt.second as nat).last());
    }
    assert(l.last() == text[text.len() - 1]);
    if l.contains('\n') {
        let i = choose|i: int| 0 <= i < l.len() && l[i] == '\n';
        let pre = seq!['"'] + k + seq!['"', ' '];
        assert(l =~= pre + text);
        if i < pre.len() {
            if 1 <= i < 1 + k.len() {
                assert(k[i - 1] == '\n');
            }
        } else {
            assert(text[i - pre.len()] == '\n');
        }
    }
}

proof fn lemma_render_lines(st: (Seq<Seq<char>>, Seq<char>), s: Seq<(Seq<char>, DateTime)>)
    requires
        st.1.len() == 0,
        forall|i: int| 0 <= i < s.len() ==> !(#[trigger] s[i]).0.contains('\n') && s[i].1.year >= 0,
    ensures
        lines_from(st, render_pairs(s)) == (st.0 + record_lines(s), Seq::<char>::empty()),
    decreases s.len(),
{
    if s.len() == 0 {
        assert(render_pairs(s) =~= Seq::<char>::empty());
        assert(st.0 + record_lines(s) =~= st.0);
        assert(st.1 =~= Seq::<char>::empty());
    } else {
        let dl = s.drop_last();
        let e = s.last();
        assert(forall|i: int| 0 <= i < dl.len() ==> dl[i] == s[i]);
        lemma_render_lines(st, dl);
        let st1 = lines_from(st, render_pairs(dl));
        assert(e == s[s.len() - 1]);
        lemma_record_line_plain(e.0, e.1);
        let l = record_line(e.0, e.1);
        lemma_lines_from_append(st, render_pairs(dl), l + seq!['\n']);
        assert(render_pairs(s) =~= render_pairs(dl) + (l + seq!['\n']));
        lemma_lines_from_append(st1, l, seq!['\n']);
        lemma_lines_from_plain(st1, l);
        let st2 = lines_from(st1, l);
        assert(st1.1 + l =~= l);
        assert(seq!['\n'].drop_last() =~= Seq::<char>::empty());
        assert(lines_from(st2, Seq::<char>::empty()) == st2);
        assert(seq!['\n'].last() == '\n');
        assert(strip_cr(l) == l);
        assert(record_lines(s) =~= record_lines(dl).push(l));
        assert(st.0 + record_lines(s) =~= (st.0 + record_lines(dl)).push(l));
    }
}

proof fn lemma_header_lines()
    ensures
        lines_state(state_header()) == (seq![state_header().drop_last()], Seq::<char>::empty()),
        state_header().len() > 0,
{
    reveal_strlit("logrotate state -- version 2\n");
    let h = state_header();
    let h0 = h.drop_last();
    assert(!h0.contains('\n')) by {
        if h0.contains('\n') {
            let i = choose|i: int| 0 <= i < h0.len() && h0[i] == '\n';
            assert(h[i] == '\n');
        }
    }
    let z = (Seq::<Seq<char>>::empty(), Seq::<char>::empty());
    lemma_lines_state_append(Seq::<char>::empty(), h);
    assert(Seq::<char>::empty() + h =~= h);
    assert(lines_state(Seq::<char>::empty()) == z);
    assert(h =~= h0 + seq!['\n']);
    lemma_lines_from_append(z, h0, seq!['\n']);
    lemma_lines_from_plain(z, h0);
    let st = lines_from(z, h0);
    assert(z.1 + h0 =~= h0);
    assert(seq!['\n'].drop_last() =~= Seq::<char>::empty());
    assert(lines_from(st, Seq::<char>::empty()) == st);
    assert(seq!['\n'].last() == '\n');
    assert(h0.last() != '\r');
    assert(seq![h0] =~= z.0.push(h0));
}

proof fn lemma_pairs_map_push(s: Seq<(Seq<char>, DateTime)>, e: (Seq<char>, DateTime))
    requires
        sorted_by_key(s.push(e)),
    ensures
        sorted_by_key(s),
        pairs_map(s.push(e)) == pairs_map(s).insert(e.0, e.1),
{
    let t = s.push(e);
    assert(forall|i: int| 0 <= i < s.len() ==> t[i] == s[i]);
    assert forall|i: int, j: int| 0 <= i < j < s.len() implies seq_lt(
        #[trigger] s[i].0,
        #[trigger] s[j].0,
    ) by {
        assert(seq_lt(t[i].0, t[j].0));
    }
    lemma_lt_irreflexive(e.0);
    assert forall|x: Seq<char>| #[trigger] pairs_map(t).contains_key(x) <==> pairs_map(s).insert(
        e.0,
        e.1,
    ).contains_key(x) by {
        if has_key(t, x) {
            let i = choose|i: int| 0 <= i < t.len() && t[i].0 == x;
            if i < s.len() {
                assert(s[i].0 == x);
            }
        }
        if has_key(s, x) {
            let i = choose|i: int| 0 <= i < s.len() && s[i].0 == x;
            assert(t[i].0 == x);
        }
        if x == e.0 {
            assert(t[s.len() as int].0 == x);
        }
    }
    assert forall|x: Seq<char>| #[trigger] pairs_map(t).contains_key(x) implies pairs_map(t)[x]
        == pairs_map(s).insert(e.0, e.1)[x] by {
        let i = choose|i: int| 0 <= i < t.len() && t[i].0 == x;
        lemma_pairs_map_at(t, i);
        if i < s.len() {
            lemma_pairs_map_at(s, i);
            assert(seq_lt(t[i].0, t[s.len() as int].0));
        }
    }
    assert(pairs_map(t) =~= pairs_map(s).insert(e.0, e.1));
}

/// The pairs with the fraction of each second dropped.
pub open spec fn zeroed_pairs(s: Seq<(Seq<char>, DateTime)>) -> Seq<(Seq<char>, DateTime)> {
    s.map_values(|e: (Seq<char>, DateTime)| (e.0, zero_nanos(e.1)))
}

proof fn lemma_load_record_lines(s: Seq<(Seq<char>, DateTime)>)
    requires
        sorted_by_key(s),
        forall|i: int|
            0 <= i < s.len() ==> valid_datetime((#[trigger] s[i]).1) && s[i].1.year >= 0
                && storable_key(s[i].0),
    ensures
        load_lines(record_lines(s)) == pairs_map(zeroed_pairs(s)),
    decreases s.len(),
{
    if s.len() == 0 {
        assert(pairs_map(zeroed_pairs(s)) =~= Map::<Seq<char>, DateTime>::empty());
    } else {
        let dl = s.drop_last();
        let e = s.last();
        assert(forall|i: int| 0 <= i < dl.len() ==> dl[i] == s[i]);
        assert(sorted_by_key(dl)) by {
            assert forall|i: int, j: int| 0 <= i < j < dl.len() implies seq_lt(
                #[trigger] dl[i].0,
                #[trigger] dl[j].0,
            ) by {
                assert(seq_lt(s[i].0, s[j].0));
            }
        }
        lemma_load_record_lines(dl);
        assert(e == s[s.len() - 1]);
        assert(record_lines(s).drop_last() =~= record_lines(dl));
        assert(record_lines(s).last() == record_line(e.0, e.1));
        lemma_record_line_parses(e.0, e.1);
        let z = zeroed_pairs(s);
        assert(z =~= zeroed_pairs(dl).push((e.0, zero_nanos(e.1))));
        assert(sorted_by_key(z)) by {
            assert forall|i: int, j: int| 0 <= i < j < z.len() implies seq_lt(
                #[trigger] z[i].0,
                #[trigger] z[j].0,
            ) by {
                assert(seq_lt(s[i].0, s[j].0));
            }
        }
        lemma_pairs_map_push(zeroed_pairs(dl), (e.0, zero_nanos(e.1)));
    }
}

/// Saving then loading gives back the state, each date-time without its
/// fraction of a second: for records in increasing order of path, of
/// date-times of the calendar with years from 0 on, whose paths hold no
/// `"` and no line feed.
pub proof fn law_save_then_load(s: Seq<(Seq<char>, DateTime)>)
    requires
        sorted_by_key(s),
        forall|i: int|
            0 <= i < s.len() ==> valid_datetime((#[trigger] s[i]).1) && s[i].1.year >= 0
                && storable_key(s[i].0),
    ensures
        parse_state(state_header() + render_pairs(s)) == pairs_map(s).map_values(
            |dt: DateTime| zero_nanos(dt),
        ),
{
    let c = state_header() + render_pairs(s);
    lemma_header_lines();
    lemma_lines_state_append(state_header(), render_pairs(s));
    let st = lines_state(state_header());
    lemma_render_lines(st, s);
    let ls = split_lines(c);
    assert(ls =~= seq![state_header().drop_last()] + record_lines(s));
    assert(ls.skip(1) =~= record_lines(s));
    lemma_load_record_lines(s);
    let z = zeroed_pairs(s);
    let m = pairs_map(s).map_values(|dt: DateTime| zero_nanos(dt));
    assert forall|x: Seq<char>| #[trigger] pairs_map(z).contains_key(x) <==> m.contains_key(x) by {
        if has_key(z, x) {
            let i = choose|i: int| 0 <= i < z.len() && z[i].0 == x;
            assert(s[i].0 == x);
        }
        if has_key(s, x) {
            let i = choose|i: int| 0 <= i < s.len() && s[i].0 == x;
            assert(z[i].0 == x);
        }
    }
    assert forall|x: Seq<char>| #[trigger] pairs_map(z).contains_key(x) implies pairs_map(z)[x]
        == m[x] by {
        let i = choose|i: int| 0 <= i < z.len() && z[i].0 == x;
        assert(sorted_by_key(z)) by {
            assert forall|a: int, b: int| 0 <= a < b < z.len() implies seq_lt(
                #[trigger] z[a].0,
                #[trigger] z[b].0,
            ) by {
                assert(seq_lt(s[a].0, s[b].0));
            }
        }
        lemma_pairs_map_at(z, i);
        lemma_pairs_map_at(s, i);
    }
    assert(pairs_map(z) =~= m);
}

// ---------------------------------------------------------------- when rotations are due

/// A file just recorded as rotated at `t` is not due at `t`, whatever the
/// frequency.
pub proof fn law_just_rotated_not_due(
    m: Map<Seq<char>, DateTime>,
    path: Seq<char>,
    frequency: Seq<char>,
    t: DateTime,
)
    requires
        valid_datetime(t),
    ensures
        !rotation_due(m.insert(path, t), path, frequency, t),
{
    assert(m.insert(path, t)[path] == t);
    assert(elapsed_seconds(t, t) == 0);
}

/// A file of which the state holds no record is due, whatever the
/// frequency.
pub proof fn law_unrecorded_is_due(
    m: Map<Seq<char>, DateTime>,
    path: Seq<char>,
    frequency: Seq<char>,
    now: DateTime,
)
    requires
        !m.contains_key(path),
    ensures
        rotation_due(m, path, frequency, now),
{
}

proof fn lemma_elapsed_monotonic(t1: DateTime, t2: DateTime, last: DateTime)
    requires
        crate::datetime::instant_nanos(t1) <= crate::datetime::instant_nanos(t2),
    ensures
        elapsed_seconds(t1, last) <= elapsed_seconds(t2, last),
{
    let d1 = crate::datetime::instant_nanos(t1) - crate::datetime::instant_nanos(last);
    let d2 = crate::datetime::instant_nanos(t2) - crate::datetime::instant_nanos(last);
    let n: int = 1_000_000_000;
    if d1 >= 0 {
        vstd::arithmetic::div_mod::lemma_div_is_ordered(d1, d2, n);
    } else if d2 >= 0 {
        vstd::arithmetic::div_mod::lemma_div_is_ordered(0, -d1, n);
        vstd::arithmetic::div_mod::lemma_div_is_ordered(0, d2, n);
    } else {
        vstd::arithmetic::div_mod::lemma_div_is_ordered(-d2, -d1, n);
    }
}

/// Once an hourly, daily or weekly rotation is due, it stays due at every
/// later moment until the file is rotated.
pub proof fn law_due_stays_due(
    m: Map<Seq<char>, DateTime>,
    path: Seq<char>,
    frequency: Seq<char>,
    t1: DateTime,
    t2: DateTime,
)
    requires
        frequency == "hourly"@ || frequency == "daily"@ || frequency == "weekly"@,
        crate::datetime::instant_nanos(t1) <= crate::datetime::instant_nanos(t2),
        rotation_due(m, path, frequency, t1),
    ensures
        rotation_due(m, path, frequency, t2),
{
    if m.contains_key(path) {
        lemma_elapsed_monotonic(t1, t2, m[path]);
    }
}

} // verus!
