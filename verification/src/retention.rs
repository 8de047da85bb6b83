//! Which dated copies of a log file (the copies that a `dateext` rotation
//! leaves) are removed so that no more than `rotate` of them remain: the
//! oldest, by modification time and then by name.
use vstd::prelude::*;
use crate::datetime::{reads_in_format, strftime_reads};
use crate::paths::{join_path, join_path_chars};
use crate::text::{
    chars_eq, chars_lt, chars_to_string, lemma_lt_total, lemma_lt_transitive, seq_lt, str_chars,
    sub_chars,
};

verus! {

/// Whether `f` is the file name `name`, a date that chrono reads in the
/// date format `fmt`, then `tail`.
pub open spec fn dated_with_tail(f: Seq<char>, name: Seq<char>, fmt: Seq<char>, tail: Seq<char>) -> bool {
    let n = name.len() as int;
    let e = f.len() - tail.len();
    &&& n < e
    &&& f.subrange(0, n) == name
    &&& f.subrange(e, f.len() as int) == tail
    &&& strftime_reads(fmt, f.subrange(n, e))
}

/// Whether `f` is the file name of a dated copy of the log file `name`
/// whose dates are written in the format `fmt`: `name`, a nonempty date
/// that chrono reads in `fmt`, then nothing or the `.gz` of a compressed
/// copy.
pub open spec fn is_dated_copy(f: Seq<char>, name: Seq<char>, fmt: Seq<char>) -> bool {
    dated_with_tail(f, name, fmt, Seq::empty()) || dated_with_tail(f, name, fmt, seq!['.', 'g', 'z'])
}

/// Whether the file `a` (its name and modification time) is older than
/// `b`: modified earlier, or at the same time with an earlier name.
pub open spec fn older(a: (Seq<char>, u64), b: (Seq<char>, u64)) -> bool {
    a.1 < b.1 || (a.1 == b.1 && seq_lt(a.0, b.0))
}

/// Whether the files of `s` go from the oldest to the newest, each once.
pub open spec fn oldest_first(s: Seq<(Seq<char>, u64)>) -> bool {
    forall|i: int, j: int| 0 <= i < j < s.len() ==> older(#[trigger] s[i], #[trigger] s[j])
}

/// The names and modification times of a directory listing.
pub open spec fn listing_views(l: Seq<(String, u64)>) -> Seq<(Seq<char>, u64)> {
    l.map_values(|e: (String, u64)| (e.0@, e.1))
}

pub open spec fn copy_views(l: Seq<(Vec<char>, u64)>) -> Seq<(Seq<char>, u64)> {
    l.map_values(|e: (Vec<char>, u64)| (e.0@, e.1))
}

/// The dated copies among the files of `listing`, each once, the oldest
/// first.
pub open spec fn dated_copies(
    s: Seq<(Seq<char>, u64)>,
    listing: Seq<(Seq<char>, u64)>,
    name: Seq<char>,
    fmt: Seq<char>,
) -> bool {
    &&& oldest_first(s)
    &&& forall|e: (Seq<char>, u64)| #[trigger] s.contains(e) <==> (listing.contains(e) && is_dated_copy(e.0, name, fmt))
}

/// How many of `len` copies go so that `keep` remain.
pub open spec fn excess(len: nat, keep: nat) -> nat {
    if len > keep {
        (len - keep) as nat
    } else {
        0
    }
}

/// The paths of the files `s` in directory `dir`.
pub open spec fn paths_in(dir: Seq<char>, s: Seq<(Seq<char>, u64)>) -> Seq<Seq<char>> {
    s.map_values(|e: (Seq<char>, u64)| join_path(dir, e.0))
}

/// A copy that a rotation names with a date chrono reads back counts as a
/// dated copy, compressed or not.
pub proof fn lemma_written_copy_is_dated(name: Seq<char>, fmt: Seq<char>, t: Seq<char>)
    requires
        t.len() > 0,
        strftime_reads(fmt, t),
    ensures
        is_dated_copy(name + t, name, fmt),
        is_dated_copy(name + t + seq!['.', 'g', 'z'], name, fmt),
{
    let f = name + t;
    let n = name.len() as int;
    assert(f.subrange(0, n) =~= name);
    assert(f.subrange(n, f.len() as int) =~= t);
    assert(f.subrange(f.len() as int, f.len() as int) =~= Seq::<char>::empty());
    let g = f + seq!['.', 'g', 'z'];
    assert(g.subrange(0, n) =~= name);
    assert(g.subrange(n, g.len() - 3) =~= t);
    assert(g.subrange(g.len() - 3, g.len() as int) =~= seq!['.', 'g', 'z']);
}

fn dated_with_tail_chars(f: &Vec<char>, name: &Vec<char>, fmt: &str, tail: &Vec<char>) -> (r: bool)
    ensures
        r == dated_with_tail(f@, name@, fmt@, tail@),
{
    if tail.len() > f.len() || name.len() >= f.len() - tail.len() {
        return false;
    }
    let n = name.len();
    let e = f.len() - tail.len();
    if !chars_eq(&sub_chars(f, 0, n), name) {
        return false;
    }
    if !chars_eq(&sub_chars(f, e, f.len()), tail) {
        return false;
    }
    let date = chars_to_string(&sub_chars(f, n, e));
    reads_in_format(fmt, date.as_str())
}

/// Whether the file name `f` is that of a dated copy of `name` whose dates
/// are written in the format `fmt`.
pub fn is_dated_copy_chars(f: &Vec<char>, name: &Vec<char>, fmt: &str) -> (r: bool)
    ensures
        r == is_dated_copy(f@, name@, fmt@),
{
    let plain: Vec<char> = Vec::new();
    let gz: Vec<char> = vec!['.', 'g', 'z'];
    assert(plain@ =~= Seq::<char>::empty());
    assert(gz@ =~= seq!['.', 'g', 'z']);
    dated_with_tail_chars(f, name, fmt, &plain) || dated_with_tail_chars(f, name, fmt, &gz)
}

proof fn lemma_older_transitive(a: (Seq<char>, u64), b: (Seq<char>, u64), c: (Seq<char>, u64))
    requires
        older(a, b),
        older(b, c),
    ensures
        older(a, c),
{
    if a.1 == b.1 && b.1 == c.1 {
        lemma_lt_transitive(a.0, b.0, c.0);
    }
}

proof fn lemma_older_total(a: (Seq<char>, u64), b: (Seq<char>, u64))
    requires
        a != b,
    ensures
        older(a, b) || older(b, a),
{
    if a.1 == b.1 {
        lemma_lt_total(a.0, b.0);
    }
}

fn older_exec(a: &(Vec<char>, u64), b: &(Vec<char>, u64)) -> (r: bool)
    ensures
        r == older((a.0@, a.1), (b.0@, b.1)),
{
    a.1 < b.1 || (a.1 == b.1 && chars_lt(&a.0, &b.0))
}

/// Inserts `f` into `sorted`, which goes from the oldest to the newest,
/// unless it is there.
fn insert_sorted(sorted: &mut Vec<(Vec<char>, u64)>, f: (Vec<char>, u64))
    requires
        oldest_first(copy_views(old(sorted)@)),
    ensures
        oldest_first(copy_views(final(sorted)@)),
        forall|g: (Seq<char>, u64)|
            #[trigger] copy_views(final(sorted)@).contains(g) <==> (copy_views(
                old(sorted)@,
            ).contains(g) || g == (f.0@, f.1)),
{
    let ghost before = copy_views(sorted@);
    let ghost fv = (f.0@, f.1);
    let mut i: usize = 0;
    while i < sorted.len() && older_exec(&sorted[i], &f)
        invariant
            0 <= i <= sorted.len(),
            before == copy_views(sorted@),
            fv == (f.0@, f.1),
            oldest_first(before),
            forall|k: int| 0 <= k < i ==> older(#[trigger] before[k], fv),
        decreases sorted.len() - i,
    {
        i = i + 1;
    }
    if i < sorted.len() && sorted[i].1 == f.1 && chars_eq(&sorted[i].0, &f.0) {
        assert(before[i as int] == fv);
        return;
    }
    proof {
        if i < sorted.len() {
            assert(!older(before[i as int], fv));
            assert(before[i as int] != fv);
            lemma_older_total(before[i as int], fv);
        }
    }
    sorted.insert(i, f);
    let ghost after = copy_views(sorted@);
    assert(after =~= before.insert(i as int, fv));
    assert forall|a: int, b: int| 0 <= a < b < after.len() implies older(
        #[trigger] after[a],
        #[trigger] after[b],
    ) by {
        if b < i {
        } else if a < i && b == i {
        } else if a < i && b > i {
            assert(after[b] == before[b - 1]);
            assert(older(before[a], before[i as int]));
            if b - 1 > i {
                lemma_older_transitive(before[a], before[i as int], before[b - 1]);
            }
        } else if a == i {
            assert(after[b] == before[b - 1]);
            if b - 1 > i {
                lemma_older_transitive(fv, before[i as int], before[b - 1]);
            }
        } else {
            assert(after[a] == before[a - 1]);
            assert(after[b] == before[b - 1]);
        }
    }
    assert forall|g: (Seq<char>, u64)| #[trigger] after.contains(g) <==> (before.contains(g) || g == fv) by {
        if after.contains(g) {
            let j = choose|j: int| 0 <= j < after.len() && after[j] == g;
            if j < i {
                assert(before[j] == g);
            } else if j > i {
                assert(before[j - 1] == g);
            }
        }
        if before.contains(g) {
            let j = choose|j: int| 0 <= j < before.len() && before[j] == g;
            if j < i {
                assert(after[j] == g);
            } else {
                assert(after[j + 1] == g);
            }
        }
        if g == fv {
            assert(after[i as int] == g);
        }
    }
}

/// The paths, in directory `dir`, of the dated copies of the log file
/// `name` to remove so that at most `keep` remain: among the files of
/// `listing` (the names and modification times of the files in `dir`),
/// the dated copies whose dates are written in `fmt`, the oldest first,
/// lose their first ones.
pub fn dated_copies_to_remove(dir: &str, name: &str, fmt: &str, keep: u32, listing: &Vec<(String, u64)>) -> (r:
    Vec<String>)
    ensures
        exists|s: Seq<(Seq<char>, u64)>|
            #[trigger] dated_copies(s, listing_views(listing@), name@, fmt@) && crate::text::string_views(r@)
                == paths_in(dir@, s.take(excess(s.len(), keep as nat) as int)),
{
    let ghost ls = listing_views(listing@);
    let nc = str_chars(name);
    let mut sorted: Vec<(Vec<char>, u64)> = Vec::new();
    assert(copy_views(sorted@) =~= Seq::<(Seq<char>, u64)>::empty());
    for i in 0..listing.len()
        invariant
            ls == listing_views(listing@),
            nc@ == name@,
            oldest_first(copy_views(sorted@)),
            forall|g: (Seq<char>, u64)|
                #[trigger] copy_views(sorted@).contains(g) <==> (ls.take(i as int).contains(g)
                    && is_dated_copy(g.0, name@, fmt@)),
    {
        let f = str_chars(listing[i].0.as_str());
        let m = listing[i].1;
        let ghost fv = (f@, m);
        assert(ls[i as int] == fv);
        assert(ls.take(i + 1) =~= ls.take(i as int).push(fv));
        if is_dated_copy_chars(&f, &nc, fmt) {
            insert_sorted(&mut sorted, (f, m));
        }
        assert forall|g: (Seq<char>, u64)|
            #[trigger] copy_views(sorted@).contains(g) <==> (ls.take(i + 1).contains(g)
                && is_dated_copy(g.0, name@, fmt@)) by {
            let t1 = ls.take(i + 1);
            let t0 = ls.take(i as int);
            if t1.contains(g) && g != fv {
                let j = choose|j: int| 0 <= j < t1.len() && t1[j] == g;
                assert(t0[j] == g);
            }
            if t0.contains(g) {
                let j = choose|j: int| 0 <= j < t0.len() && t0[j] == g;
                assert(t1[j] == g);
            }
            if g == fv {
                assert(t1[i as int] == g);
            }
        }
    }
    let ghost s = copy_views(sorted@);
    assert(ls.take(listing.len() as int) =~= ls);
    let count = if sorted.len() > keep as usize {
        sorted.len() - keep as usize
    } else {
        0
    };
    let dirc = str_chars(dir);
    let mut out: Vec<String> = Vec::new();
    for j in 0..count
        invariant
            count <= sorted.len(),
            s == copy_views(sorted@),
            dirc@ == dir@,
            crate::text::string_views(out@) == paths_in(dir@, s.take(j as int)),
    {
        let p = join_path_chars(&dirc, &sorted[j].0);
        let ghost before = out@;
        out.push(chars_to_string(&p));
        assert(s.take(j + 1) =~= s.take(j as int).push(s[j as int]));
        assert(crate::text::string_views(out@) =~= crate::text::string_views(before).push(p@));
    }
    assert(count == excess(s.len(), keep as nat));
    assert(dated_copies(s, ls, name@, fmt@));
    out
}

/// After the copies that `dated_copies_to_remove` names are removed, at
/// most `keep` of the dated copies in the listing remain, and each removed
/// copy is older than each remaining one.
pub proof fn law_at_most_keep_dated_copies_remain(
    s: Seq<(Seq<char>, u64)>,
    listing: Seq<(Seq<char>, u64)>,
    name: Seq<char>,
    fmt: Seq<char>,
    keep: nat,
)
    requires
        dated_copies(s, listing, name, fmt),
    ensures
        ({
            let e = excess(s.len(), keep) as int;
            let left = Set::new(|f: (Seq<char>, u64)| listing.contains(f) && is_dated_copy(f.0, name, fmt))
                - s.take(e).to_set();
            &&& left.finite()
            &&& left.len() <= keep
            &&& forall|a: (Seq<char>, u64), b: (Seq<char>, u64)|
                #[trigger] s.take(e).contains(a) && #[trigger] left.contains(b) ==> older(a, b)
        }),
{
    let e = excess(s.len(), keep) as int;
    let all = Set::new(|f: (Seq<char>, u64)| listing.contains(f) && is_dated_copy(f.0, name, fmt));
    let left = all - s.take(e).to_set();
    let rest = s.skip(e);
    assert forall|f: (Seq<char>, u64)| #[trigger] left.contains(f) implies rest.to_set().contains(f) by {
        assert(s.contains(f));
        let j = choose|j: int| 0 <= j < s.len() && s[j] == f;
        if j < e {
            assert(s.take(e)[j] == f);
        } else {
            assert(rest[j - e] == f);
        }
    }
    vstd::set_lib::lemma_len_subset(left, rest.to_set());
    rest.lemma_cardinality_of_set();
    assert forall|a: (Seq<char>, u64), b: (Seq<char>, u64)|
        #[trigger] s.take(e).contains(a) && #[trigger] left.contains(b) implies older(a, b) by {
        let i = choose|i: int| 0 <= i < e && s.take(e)[i] == a;
        assert(s.contains(b));
        let j = choose|j: int| 0 <= j < s.len() && s[j] == b;
        if j < e {
            assert(s.take(e)[j] == b);
        } else {
            assert(s[i] == a);
        }
    }
}

} // verus!
