//! Character-level text utilities: whitespace, trimming, splitting and
//! decimal numbers, each with a specification over `Seq<char>`.
use vstd::prelude::*;

verus! {

/// `String::push` appends one character.
pub assume_specification[ String::push ](s: &mut String, ch: char)
    ensures
        final(s)@ == old(s)@.push(ch),
;

/// Unicode `White_Space`, the property that `char::is_whitespace` tests.
pub open spec fn is_ws(c: char) -> bool {
    ||| '\t' <= c <= '\r'
    ||| c == ' '
    ||| c == '\u{85}'
    ||| c == '\u{A0}'
    ||| c == '\u{1680}'
    ||| '\u{2000}' <= c <= '\u{200A}'
    ||| c == '\u{2028}'
    ||| c == '\u{2029}'
    ||| c == '\u{202F}'
    ||| c == '\u{205F}'
    ||| c == '\u{3000}'
}

pub fn char_is_ws(c: char) -> (r: bool)
    ensures
        r == is_ws(c),
{
    ('\t' <= c && c <= '\r') || c == ' ' || c == '\u{85}' || c == '\u{A0}' || c == '\u{1680}' || (
    '\u{2000}' <= c && c <= '\u{200A}') || c == '\u{2028}' || c == '\u{2029}' || c == '\u{202F}'
        || c == '\u{205F}' || c == '\u{3000}'
}

/// The characters of a string slice, in order.
pub fn str_chars(s: &str) -> (r: Vec<char>)
    ensures
        r@ == s@,
{
    let mut v: Vec<char> = Vec::new();
    for c in it: s.chars()
        invariant
            v@ == it.seq().take(it.index() as int),
    {
        v.push(c);
    }
    v
}

/// A `String` holding the given characters.
pub fn chars_to_string(v: &Vec<char>) -> (r: String)
    ensures
        r@ == v@,
{
    let mut s = String::new();
    for i in 0..v.len()
        invariant
            s@ == v@.take(i as int),
    {
        s.push(v[i]);
        assert(v@.take(i + 1) == v@.take(i as int).push(v@[i as int]));
    }
    assert(v@.take(v.len() as int) == v@);
    s
}

/// The characters `v[from..to]`.
pub fn sub_chars(v: &Vec<char>, from: usize, to: usize) -> (r: Vec<char>)
    requires
        from <= to <= v.len(),
    ensures
        r@ == v@.subrange(from as int, to as int),
{
    let mut out: Vec<char> = Vec::new();
    let mut i = from;
    while i < to
        invariant
            from <= i <= to <= v.len(),
            out@ == v@.subrange(from as int, i as int),
        decreases to - i,
    {
        out.push(v[i]);
        assert(v@.subrange(from as int, i + 1) == v@.subrange(from as int, i as int).push(
            v@[i as int],
        ));
        i = i + 1;
    }
    out
}

/// Whether `s` equals `t`.
pub fn chars_eq(s: &Vec<char>, t: &Vec<char>) -> (r: bool)
    ensures
        r == (s@ == t@),
{
    if s.len() != t.len() {
        return false;
    }
    let mut i: usize = 0;
    while i < s.len()
        invariant
            s.len() == t.len(),
            0 <= i <= s.len(),
            forall|k: int| 0 <= k < i ==> s@[k] == t@[k],
        decreases s.len() - i,
    {
        if s[i] != t[i] {
            return false;
        }
        i = i + 1;
    }
    assert(s@ =~= t@);
    true
}

/// Whether the characters of `s` spell out `lit`.
pub fn eq_str(s: &Vec<char>, lit: &str) -> (r: bool)
    ensures
        r == (s@ == lit@),
{
    let t = str_chars(lit);
    chars_eq(s, &t)
}

pub open spec fn starts_with(s: Seq<char>, p: Seq<char>) -> bool {
    p.len() <= s.len() && s.take(p.len() as int) == p
}

/// Whether `s` begins with `lit`.
pub fn starts_with_str(s: &Vec<char>, lit: &str) -> (r: bool)
    ensures
        r == starts_with(s@, lit@),
{
    let t = str_chars(lit);
    if t.len() > s.len() {
        return false;
    }
    let mut i: usize = 0;
    while i < t.len()
        invariant
            t@ == lit@,
            t.len() <= s.len(),
            0 <= i <= t.len(),
            forall|k: int| 0 <= k < i ==> s@[k] == t@[k],
        decreases t.len() - i,
    {
        if s[i] != t[i] {
            assert(s@.take(t@.len() as int)[i as int] != t@[i as int]);
            return false;
        }
        i = i + 1;
    }
    assert(s@.take(t@.len() as int) =~= t@);
    true
}

/// Whether `c` occurs in `s`.
pub fn contains_char(s: &Vec<char>, c: char) -> (r: bool)
    ensures
        r == s@.contains(c),
{
    let mut i: usize = 0;
    while i < s.len()
        invariant
            0 <= i <= s.len(),
            forall|k: int| 0 <= k < i ==> s@[k] != c,
        decreases s.len() - i,
    {
        if s[i] == c {
            assert(s@[i as int] == c);
            return true;
        }
        i = i + 1;
    }
    false
}

/// Appends the characters of `s` to `out`.
pub fn append_chars(out: &mut Vec<char>, s: &Vec<char>)
    ensures
        final(out)@ == old(out)@ + s@,
{
    let ghost start = out@;
    for i in 0..s.len()
        invariant
            out@ == start + s@.take(i as int),
    {
        out.push(s[i]);
        assert(s@.take(i + 1) == s@.take(i as int).push(s@[i as int]));
    }
    assert(s@.take(s.len() as int) =~= s@);
}

/// Appends the characters of `s` to the string `out`.
pub fn push_chars(out: &mut String, s: &Vec<char>)
    ensures
        final(out)@ == old(out)@ + s@,
{
    let ghost start = out@;
    for i in 0..s.len()
        invariant
            out@ == start + s@.take(i as int),
    {
        out.push(s[i]);
        assert(s@.take(i + 1) == s@.take(i as int).push(s@[i as int]));
    }
    assert(s@.take(s.len() as int) =~= s@);
}

/// The concatenation of two strings.
pub fn concat_str(a: &str, b: &str) -> (r: String)
    ensures
        r@ == a@ + b@,
{
    let mut out = String::new();
    let ac = str_chars(a);
    let bc = str_chars(b);
    push_chars(&mut out, &ac);
    push_chars(&mut out, &bc);
    assert(out@ =~= a@ + b@);
    out
}

// ---------------------------------------------------------------- trimming

/// The whitespace test of `str::trim`.
pub open spec fn ws_pred() -> spec_fn(char) -> bool {
    |c: char| is_ws(c)
}

/// The test of `trim_matches('"')`.
pub open spec fn quote_pred() -> spec_fn(char) -> bool {
    |c: char| c == '"'
}

/// `s` without its leading characters that satisfy `p`.
pub open spec fn strip_start(s: Seq<char>, p: spec_fn(char) -> bool) -> Seq<char>
    decreases s.len(),
{
    if s.len() > 0 && p(s[0]) {
        strip_start(s.drop_first(), p)
    } else {
        s
    }
}

/// `s` without its trailing characters that satisfy `p`.
pub open spec fn strip_end(s: Seq<char>, p: spec_fn(char) -> bool) -> Seq<char>
    decreases s.len(),
{
    if s.len() > 0 && p(s.last()) {
        strip_end(s.drop_last(), p)
    } else {
        s
    }
}

/// `s` without leading and trailing whitespace, as `str::trim`.
pub open spec fn trim(s: Seq<char>) -> Seq<char> {
    strip_end(strip_start(s, ws_pred()), ws_pred())
}

/// `s` without leading and trailing `"`, as `str::trim_matches('"')`.
pub open spec fn trim_quotes(s: Seq<char>) -> Seq<char> {
    strip_end(strip_start(s, quote_pred()), quote_pred())
}

proof fn lemma_strip_start_from(s: Seq<char>, p: spec_fn(char) -> bool, i: int)
    requires
        0 <= i <= s.len(),
        forall|k: int| 0 <= k < i ==> p(s[k]),
    ensures
        strip_start(s, p) == strip_start(s.subrange(i, s.len() as int), p),
    decreases i,
{
    if i > 0 {
        assert(s.drop_first().subrange(i - 1, s.drop_first().len() as int) =~= s.subrange(
            i,
            s.len() as int,
        ));
        lemma_strip_start_from(s.drop_first(), p, i - 1);
    } else {
        assert(s.subrange(0, s.len() as int) =~= s);
    }
}

proof fn lemma_strip_end_to(s: Seq<char>, p: spec_fn(char) -> bool, j: int)
    requires
        0 <= j <= s.len(),
        forall|k: int| j <= k < s.len() ==> p(s[k]),
    ensures
        strip_end(s, p) == strip_end(s.subrange(0, j), p),
    decreases s.len() - j,
{
    if j < s.len() {
        assert(s.drop_last().subrange(0, j) =~= s.subrange(0, j));
        lemma_strip_end_to(s.drop_last(), p, j);
    } else {
        assert(s.subrange(0, s.len() as int) =~= s);
    }
}

fn test_char(c: char, quotes: bool) -> (r: bool)
    ensures
        r == (if quotes { quote_pred() } else { ws_pred() })(c),
{
    if quotes {
        c == '"'
    } else {
        char_is_ws(c)
    }
}

fn strip_both(s: &Vec<char>, quotes: bool) -> (r: Vec<char>)
    ensures
        ({
            let p = if quotes { quote_pred() } else { ws_pred() };
            r@ == strip_end(strip_start(s@, p), p)
        }),
{
    let ghost p = if quotes { quote_pred() } else { ws_pred() };
    let n = s.len();
    let mut i: usize = 0;
    while i < n && test_char(s[i], quotes)
        invariant
            p == (if quotes { quote_pred() } else { ws_pred() }),
            0 <= i <= n == s.len(),
            forall|k: int| 0 <= k < i ==> p(s@[k]),
        decreases n - i,
    {
        i = i + 1;
    }
    proof {
        lemma_strip_start_from(s@, p, i as int);
    }
    let ghost rest = s@.subrange(i as int, n as int);
    assert(strip_start(rest, p) == rest);
    let mut j: usize = n;
    while j > i && test_char(s[j - 1], quotes)
        invariant
            p == (if quotes { quote_pred() } else { ws_pred() }),
            i <= j <= n == s.len(),
            forall|k: int| j <= k < n ==> p(s@[k]),
        decreases j,
    {
        j = j - 1;
    }
    proof {
        lemma_strip_end_to(rest, p, j - i);
        assert(rest.subrange(0, j - i) =~= s@.subrange(i as int, j as int));
        let t = s@.subrange(i as int, j as int);
        if t.len() > 0 {
            assert(t.last() == s@[j - 1]);
        }
    }
    sub_chars(s, i, j)
}

/// `s` with leading and trailing whitespace removed.
pub fn trim_chars(s: &Vec<char>) -> (r: Vec<char>)
    ensures
        r@ == trim(s@),
{
    strip_both(s, false)
}

/// `s` with leading and trailing `"` removed.
pub fn trim_quote_chars(s: &Vec<char>) -> (r: Vec<char>)
    ensures
        r@ == trim_quotes(s@),
{
    strip_both(s, true)
}

// ---------------------------------------------------------------- splitting

/// The views of a sequence of character vectors.
pub open spec fn views(ws: Seq<Vec<char>>) -> Seq<Seq<char>> {
    ws.map_values(|w: Vec<char>| w@)
}

/// The views of a sequence of strings.
pub open spec fn string_views(ws: Seq<String>) -> Seq<Seq<char>> {
    ws.map_values(|w: String| w@)
}

/// The maximal runs of non-whitespace characters of `s`, in order,
/// as `str::split_whitespace`.
pub open spec fn split_ws(s: Seq<char>) -> Seq<Seq<char>>
    decreases s.len(),
{
    if s.len() == 0 {
        seq![]
    } else {
        let prev = split_ws(s.drop_last());
        let c = s.last();
        if is_ws(c) {
            prev
        } else if s.len() >= 2 && !is_ws(s[s.len() - 2]) {
            prev.update(prev.len() - 1, prev.last().push(c))
        } else {
            prev.push(seq![c])
        }
    }
}

/// The words of `s`, split at whitespace.
pub fn split_ws_chars(s: &Vec<char>) -> (r: Vec<Vec<char>>)
    ensures
        views(r@) == split_ws(s@),
{
    let mut done: Vec<Vec<char>> = Vec::new();
    let mut cur: Vec<char> = Vec::new();
    let n = s.len();
    for i in 0..n
        invariant
            n == s.len(),
            (i > 0 && !is_ws(s@[i - 1])) ==> split_ws(s@.take(i as int)) == views(done@).push(
                cur@,
            ),
            !(i > 0 && !is_ws(s@[i - 1])) ==> split_ws(s@.take(i as int)) == views(done@)
                && cur@.len() == 0,
    {
        let c = s[i];
        let ghost t = s@.take(i + 1);
        assert(t.drop_last() == s@.take(i as int));
        assert(t.last() == c);
        let in_word = i > 0 && !char_is_ws(s[i - 1]);
        if char_is_ws(c) {
            if in_word {
                let w = cur;
                cur = Vec::new();
                let ghost before = views(done@);
                done.push(w);
                assert(views(done@) =~= before.push(w@));
            }
        } else if in_word {
            cur.push(c);
            assert(t.len() >= 2 && t[t.len() - 2] == s@[i - 1]);
        } else {
            cur.push(c);
            assert(cur@ =~= seq![c]);
        }
    }
    if n > 0 && !char_is_ws(s[n - 1]) {
        let w = cur;
        let ghost before = views(done@);
        done.push(w);
        assert(views(done@) =~= before.push(w@));
    }
    assert(s@.take(n as int) =~= s@);
    done
}

/// The parts joined with `sep` between each two, as `[T]::join`.
pub open spec fn join_with(parts: Seq<Seq<char>>, sep: Seq<char>) -> Seq<char>
    decreases parts.len(),
{
    if parts.len() == 0 {
        seq![]
    } else if parts.len() == 1 {
        parts[0]
    } else {
        join_with(parts.drop_last(), sep) + sep + parts.last()
    }
}

/// `parts[start..]` joined with single spaces.
pub fn join_words_from(parts: &Vec<Vec<char>>, start: usize) -> (r: Vec<char>)
    requires
        start <= parts.len(),
    ensures
        r@ == join_with(views(parts@).skip(start as int), seq![' ']),
{
    let ghost ps = views(parts@).skip(start as int);
    let mut out: Vec<char> = Vec::new();
    let mut k: usize = start;
    while k < parts.len()
        invariant
            start <= k <= parts.len(),
            ps == views(parts@).skip(start as int),
            out@ == join_with(ps.take(k - start), seq![' ']),
        decreases parts.len() - k,
    {
        let ghost before = out@;
        if k > start {
            out.push(' ');
        }
        let w = &parts[k];
        let mut j: usize = 0;
        while j < w.len()
            invariant
                0 <= j <= w.len(),
                out@ == (if k > start { before.push(' ') } else { before }) + w@.take(j as int),
            decreases w.len() - j,
        {
            out.push(w[j]);
            assert(w@.take(j + 1) == w@.take(j as int).push(w@[j as int]));
            j = j + 1;
        }
        assert(w@.take(w.len() as int) =~= w@);
        assert(ps.take(k + 1 - start).drop_last() =~= ps.take(k - start));
        assert(ps.take(k + 1 - start).last() == w@);
        if k > start {
            assert(out@ =~= before + seq![' '] + w@);
        } else {
            assert(ps.take(1) =~= seq![w@]);
            assert(out@ =~= w@);
        }
        k = k + 1;
    }
    assert(ps.take(parts.len() - start) =~= ps);
    out
}

/// The strings joined with `sep` between each two.
pub fn join_strings(parts: &Vec<String>, sep: char) -> (r: String)
    ensures
        r@ == join_with(string_views(parts@), seq![sep]),
{
    let ghost ps = string_views(parts@);
    let mut out = String::new();
    let mut k: usize = 0;
    while k < parts.len()
        invariant
            0 <= k <= parts.len(),
            ps == string_views(parts@),
            out@ == join_with(ps.take(k as int), seq![sep]),
        decreases parts.len() - k,
    {
        let ghost before = out@;
        if k > 0 {
            out.push(sep);
        }
        let w = str_chars(parts[k].as_str());
        let mut j: usize = 0;
        while j < w.len()
            invariant
                0 <= j <= w.len(),
                out@ == (if k > 0 { before.push(sep) } else { before }) + w@.take(j as int),
            decreases w.len() - j,
        {
            out.push(w[j]);
            assert(w@.take(j + 1) == w@.take(j as int).push(w@[j as int]));
            j = j + 1;
        }
        assert(w@.take(w.len() as int) =~= w@);
        assert(ps.take(k + 1).drop_last() =~= ps.take(k as int));
        assert(ps.take(k + 1).last() == w@);
        if k > 0 {
            assert(out@ =~= before + seq![sep] + w@);
        } else {
            assert(ps.take(1) =~= seq![w@]);
            assert(out@ =~= w@);
        }
        k = k + 1;
    }
    assert(ps.take(parts.len() as int) =~= ps);
    out
}

// ---------------------------------------------------------------- lines

/// A line without one trailing carriage return.
pub open spec fn strip_cr(l: Seq<char>) -> Seq<char> {
    if l.len() > 0 && l.last() == '\r' {
        l.drop_last()
    } else {
        l
    }
}

/// The lines ended by `\n` so far, and the characters after the last `\n`.
pub open spec fn lines_state(s: Seq<char>) -> (Seq<Seq<char>>, Seq<char>)
    decreases s.len(),
{
    if s.len() == 0 {
        (seq![], seq![])
    } else {
        let (done, cur) = lines_state(s.drop_last());
        if s.last() == '\n' {
            (done.push(strip_cr(cur)), seq![])
        } else {
            (done, cur.push(s.last()))
        }
    }
}

/// The lines of `s`, as `str::lines`: split at `\n`, a `\r` just before
/// a `\n` dropped, and a last line kept only when it is not empty.
pub open spec fn split_lines(s: Seq<char>) -> Seq<Seq<char>> {
    let (done, cur) = lines_state(s);
    if cur.len() > 0 {
        done.push(cur)
    } else {
        done
    }
}

fn strip_cr_chars(v: Vec<char>) -> (r: Vec<char>)
    ensures
        r@ == strip_cr(v@),
{
    let mut v = v;
    if v.len() > 0 && v[v.len() - 1] == '\r' {
        v.pop();
    }
    v
}

/// The lines of `s`.
pub fn split_lines_chars(s: &Vec<char>) -> (r: Vec<Vec<char>>)
    ensures
        views(r@) == split_lines(s@),
{
    let mut done: Vec<Vec<char>> = Vec::new();
    let mut cur: Vec<char> = Vec::new();
    for i in 0..s.len()
        invariant
            lines_state(s@.take(i as int)) == (views(done@), cur@),
    {
        let c = s[i];
        assert(s@.take(i + 1).drop_last() == s@.take(i as int));
        if c == '\n' {
            let w = strip_cr_chars(cur);
            cur = Vec::new();
            let ghost before = views(done@);
            done.push(w);
            assert(views(done@) =~= before.push(w@));
        } else {
            cur.push(c);
        }
    }
    assert(s@.take(s.len() as int) =~= s@);
    if cur.len() > 0 {
        let w = cur;
        let ghost before = views(done@);
        done.push(w);
        assert(views(done@) =~= before.push(w@));
    }
    done
}

// ---------------------------------------------------------------- searching

/// The index of the first `c` in `s`, as `str::find` counts characters.
pub open spec fn find_char(s: Seq<char>, c: char) -> Option<int>
    decreases s.len(),
{
    if s.len() == 0 {
        None
    } else if s[0] == c {
        Some(0)
    } else {
        match find_char(s.drop_first(), c) {
            Some(i) => Some(i + 1),
            None => None,
        }
    }
}

pub proof fn lemma_find_char(s: Seq<char>, c: char, i: int)
    requires
        0 <= i <= s.len(),
        forall|k: int| 0 <= k < i ==> s[k] != c,
        i == s.len() || s[i] == c,
    ensures
        find_char(s, c) == (if i == s.len() {
            None::<int>
        } else {
            Some(i)
        }),
    decreases i,
{
    if i > 0 {
        lemma_find_char(s.drop_first(), c, i - 1);
    }
}

/// The index of the first `c` in `s[from..]`, counted from `from`.
pub fn find_char_from(s: &Vec<char>, from: usize, c: char) -> (r: Option<usize>)
    requires
        from <= s.len(),
    ensures
        match r {
            Some(j) => from <= j < s.len() && s@[j as int] == c && find_char(
                s@.skip(from as int),
                c,
            ) == Some(j - from),
            None => find_char(s@.skip(from as int), c) is None,
        },
{
    let ghost t = s@.skip(from as int);
    let mut i = from;
    while i < s.len() && s[i] != c
        invariant
            from <= i <= s.len(),
            t == s@.skip(from as int),
            forall|k: int| 0 <= k < i - from ==> t[k] != c,
        decreases s.len() - i,
    {
        i = i + 1;
    }
    proof {
        lemma_find_char(t, c, i - from);
    }
    if i < s.len() {
        Some(i)
    } else {
        None
    }
}

/// A separator of the fields of a stored date-time.
pub open spec fn is_date_sep(c: char) -> bool {
    c == '-' || c == ':'
}

/// The fields ended by a separator so far, and the characters after the
/// last separator.
pub open spec fn fields_state(s: Seq<char>) -> (Seq<Seq<char>>, Seq<char>)
    decreases s.len(),
{
    if s.len() == 0 {
        (seq![], seq![])
    } else {
        let (done, cur) = fields_state(s.drop_last());
        if is_date_sep(s.last()) {
            (done.push(cur), seq![])
        } else {
            (done, cur.push(s.last()))
        }
    }
}

/// The pieces of `s` between `-` and `:` separators, as
/// `str::split(|c| c == '-' || c == ':')`: one more piece than there are
/// separators, empty pieces included.
pub open spec fn split_date_fields(s: Seq<char>) -> Seq<Seq<char>> {
    let (done, cur) = fields_state(s);
    done.push(cur)
}

/// The pieces of `s` between `-` and `:` separators.
pub fn split_date_fields_chars(s: &Vec<char>) -> (r: Vec<Vec<char>>)
    ensures
        views(r@) == split_date_fields(s@),
{
    let mut done: Vec<Vec<char>> = Vec::new();
    let mut cur: Vec<char> = Vec::new();
    for i in 0..s.len()
        invariant
            fields_state(s@.take(i as int)) == (views(done@), cur@),
    {
        let c = s[i];
        assert(s@.take(i + 1).drop_last() == s@.take(i as int));
        if c == '-' || c == ':' {
            let w = cur;
            cur = Vec::new();
            let ghost before = views(done@);
            done.push(w);
            assert(views(done@) =~= before.push(w@));
        } else {
            cur.push(c);
        }
    }
    assert(s@.take(s.len() as int) =~= s@);
    let w = cur;
    let ghost before = views(done@);
    done.push(w);
    assert(views(done@) =~= before.push(w@));
    done
}

// ---------------------------------------------------------------- ordering

/// Lexicographic order of character sequences by code point, as `String`
/// orders.
pub open spec fn seq_lt(a: Seq<char>, b: Seq<char>) -> bool
    decreases a.len(),
{
    if a.len() == 0 {
        b.len() > 0
    } else if b.len() == 0 {
        false
    } else if a[0] != b[0] {
        (a[0] as int) < (b[0] as int)
    } else {
        seq_lt(a.drop_first(), b.drop_first())
    }
}

pub proof fn lemma_lt_irreflexive(a: Seq<char>)
    ensures
        !seq_lt(a, a),
    decreases a.len(),
{
    if a.len() > 0 {
        lemma_lt_irreflexive(a.drop_first());
    }
}

pub proof fn lemma_lt_total(a: Seq<char>, b: Seq<char>)
    requires
        a != b,
    ensures
        seq_lt(a, b) || seq_lt(b, a),
    decreases a.len(),
{
    if a.len() > 0 && b.len() > 0 && a[0] == b[0] {
        if a.drop_first() == b.drop_first() {
            assert(a =~= seq![a[0]] + a.drop_first());
            assert(b =~= seq![b[0]] + b.drop_first());
        }
        lemma_lt_total(a.drop_first(), b.drop_first());
    } else if a.len() > 0 && b.len() > 0 {
        assert((a[0] as int) != (b[0] as int));
    } else if a.len() == 0 && b.len() == 0 {
        assert(a =~= b);
    }
}

pub proof fn lemma_lt_transitive(a: Seq<char>, b: Seq<char>, c: Seq<char>)
    requires
        seq_lt(a, b),
        seq_lt(b, c),
    ensures
        seq_lt(a, c),
    decreases a.len(),
{
    if a.len() > 0 && b.len() > 0 && c.len() > 0 && a[0] == b[0] && b[0] == c[0] {
        lemma_lt_transitive(a.drop_first(), b.drop_first(), c.drop_first());
    }
}

/// Whether `a` orders before `b`.
pub fn chars_lt(a: &Vec<char>, b: &Vec<char>) -> (r: bool)
    ensures
        r == seq_lt(a@, b@),
{
    let mut i: usize = 0;
    assert(a@.skip(0) =~= a@);
    assert(b@.skip(0) =~= b@);
    while i < a.len() && i < b.len() && a[i] == b[i]
        invariant
            0 <= i <= a.len(),
            i <= b.len(),
            seq_lt(a@, b@) == seq_lt(a@.skip(i as int), b@.skip(i as int)),
        decreases a.len() - i,
    {
        assert(a@.skip(i as int).drop_first() =~= a@.skip(i + 1));
        assert(b@.skip(i as int).drop_first() =~= b@.skip(i + 1));
        i = i + 1;
    }
    if i == a.len() {
        i < b.len()
    } else if i == b.len() {
        false
    } else {
        assert(a@.skip(i as int)[0] == a@[i as int]);
        assert(b@.skip(i as int)[0] == b@[i as int]);
        a[i] < b[i]
    }
}

// ---------------------------------------------------------------- splitting lemmas

/// `lines_state` continued from state `st` over the characters of `b`.
pub open spec fn lines_from(st: (Seq<Seq<char>>, Seq<char>), b: Seq<char>) -> (
    Seq<Seq<char>>,
    Seq<char>,
)
    decreases b.len(),
{
    if b.len() == 0 {
        st
    } else {
        let (done, cur) = lines_from(st, b.drop_last());
        if b.last() == '\n' {
            (done.push(strip_cr(cur)), seq![])
        } else {
            (done, cur.push(b.last()))
        }
    }
}

pub proof fn lemma_lines_state_append(a: Seq<char>, b: Seq<char>)
    ensures
        lines_state(a + b) == lines_from(lines_state(a), b),
    decreases b.len(),
{
    if b.len() == 0 {
        assert(a + b =~= a);
    } else {
        assert((a + b).drop_last() =~= a + b.drop_last());
        assert((a + b).last() == b.last());
        lemma_lines_state_append(a, b.drop_last());
    }
}

pub proof fn lemma_lines_from_append(st: (Seq<Seq<char>>, Seq<char>), b: Seq<char>, c: Seq<char>)
    ensures
        lines_from(st, b + c) == lines_from(lines_from(st, b), c),
    decreases c.len(),
{
    if c.len() == 0 {
        assert(b + c =~= b);
    } else {
        assert((b + c).drop_last() =~= b + c.drop_last());
        assert((b + c).last() == c.last());
        lemma_lines_from_append(st, b, c.drop_last());
    }
}

/// Characters without a line feed only extend the current line.
pub proof fn lemma_lines_from_plain(st: (Seq<Seq<char>>, Seq<char>), x: Seq<char>)
    requires
        !x.contains('\n'),
    ensures
        lines_from(st, x) == (st.0, st.1 + x),
    decreases x.len(),
{
    if x.len() == 0 {
        assert(st.1 + x =~= st.1);
    } else {
        assert(x.drop_last().len() < x.len());
        assert(!x.drop_last().contains('\n')) by {
            if x.drop_last().contains('\n') {
                let i = choose|i: int| 0 <= i < x.drop_last().len() && x.drop_last()[i] == '\n';
                assert(x[i] == '\n');
            }
        }
        lemma_lines_from_plain(st, x.drop_last());
        assert(x.last() != '\n') by {
            assert(x[x.len() - 1] == x.last());
        }
        assert((st.1 + x.drop_last()).push(x.last()) =~= st.1 + x);
    }
}

/// `fields_state` continued from state `st` over the characters of `b`.
pub open spec fn fields_from(st: (Seq<Seq<char>>, Seq<char>), b: Seq<char>) -> (
    Seq<Seq<char>>,
    Seq<char>,
)
    decreases b.len(),
{
    if b.len() == 0 {
        st
    } else {
        let (done, cur) = fields_from(st, b.drop_last());
        if is_date_sep(b.last()) {
            (done.push(cur), seq![])
        } else {
            (done, cur.push(b.last()))
        }
    }
}

pub proof fn lemma_fields_state_is_from(b: Seq<char>)
    ensures
        fields_state(b) == fields_from((seq![], seq![]), b),
    decreases b.len(),
{
    if b.len() > 0 {
        lemma_fields_state_is_from(b.drop_last());
    }
}

pub proof fn lemma_fields_from_append(st: (Seq<Seq<char>>, Seq<char>), b: Seq<char>, c: Seq<char>)
    ensures
        fields_from(st, b + c) == fields_from(fields_from(st, b), c),
    decreases c.len(),
{
    if c.len() == 0 {
        assert(b + c =~= b);
    } else {
        assert((b + c).drop_last() =~= b + c.drop_last());
        assert((b + c).last() == c.last());
        lemma_fields_from_append(st, b, c.drop_last());
    }
}

/// Characters without a separator only extend the current field.
pub proof fn lemma_fields_from_plain(st: (Seq<Seq<char>>, Seq<char>), x: Seq<char>)
    requires
        forall|i: int| 0 <= i < x.len() ==> !is_date_sep(#[trigger] x[i]),
    ensures
        fields_from(st, x) == (st.0, st.1 + x),
    decreases x.len(),
{
    if x.len() == 0 {
        assert(st.1 + x =~= st.1);
    } else {
        lemma_fields_from_plain(st, x.drop_last());
        assert(!is_date_sep(x[x.len() - 1]));
        assert((st.1 + x.drop_last()).push(x.last()) =~= st.1 + x);
    }
}

/// A field of digits followed by a separator.
pub proof fn lemma_fields_digits_sep(st: (Seq<Seq<char>>, Seq<char>), d: Seq<char>, sep: char)
    requires
        st.1.len() == 0,
        all_digits(d),
        is_date_sep(sep),
    ensures
        fields_from(st, d + seq![sep]) == (st.0.push(d), Seq::<char>::empty()),
{
    lemma_fields_from_append(st, d, seq![sep]);
    assert forall|i: int| 0 <= i < d.len() implies !is_date_sep(#[trigger] d[i]) by {
        assert(is_digit(d[i]));
    }
    lemma_fields_from_plain(st, d);
    assert(st.1 + d =~= d);
    let t = fields_from(st, d);
    assert(seq![sep].drop_last() =~= Seq::<char>::empty());
    assert(fields_from(t, Seq::<char>::empty()) == t);
    assert(seq![sep].last() == sep);
    assert(fields_from(t, seq![sep]) == (t.0.push(t.1), Seq::<char>::empty()));
}

// ---------------------------------------------------------------- numbers

pub open spec fn is_digit(c: char) -> bool {
    '0' <= c <= '9'
}

pub open spec fn all_digits(s: Seq<char>) -> bool {
    forall|i: int| 0 <= i < s.len() ==> is_digit(#[trigger] s[i])
}

/// The value of a string of decimal digits.
pub open spec fn digits_value(s: Seq<char>) -> nat
    decreases s.len(),
{
    if s.len() == 0 {
        0
    } else {
        digits_value(s.drop_last()) * 10 + ((s.last() as nat) - ('0' as nat)) as nat
    }
}

/// What `str::parse` gives for an unsigned integer type whose largest
/// value is `max`: an optional `+`, then one or more decimal digits whose
/// value is at most `max`.
pub open spec fn parse_unsigned(s: Seq<char>, max: nat) -> Option<nat> {
    let d = if s.len() > 0 && s[0] == '+' {
        s.drop_first()
    } else {
        s
    };
    if d.len() > 0 && all_digits(d) && digits_value(d) <= max {
        Some(digits_value(d))
    } else {
        None
    }
}

/// What `str::parse::<i32>` gives: an optional sign, then one or more
/// decimal digits, in range.
pub open spec fn parse_i32_spec(s: Seq<char>) -> Option<int> {
    if s.len() > 0 && s[0] == '-' {
        let d = s.drop_first();
        if d.len() > 0 && all_digits(d) && digits_value(d) <= 0x8000_0000 {
            Some(-(digits_value(d) as int))
        } else {
            None
        }
    } else {
        match parse_unsigned(s, 0x7FFF_FFFF) {
            Some(v) => Some(v as int),
            None => None,
        }
    }
}

proof fn lemma_digits_value_prefix(d: Seq<char>, k: int)
    requires
        0 <= k <= d.len(),
    ensures
        digits_value(d.take(k)) <= digits_value(d),
    decreases d.len() - k,
{
    if k < d.len() {
        lemma_digits_value_prefix(d, k + 1);
        assert(d.take(k + 1).drop_last() =~= d.take(k));
    } else {
        assert(d.take(k) =~= d);
    }
}

/// The value of the digits `s[from..]`, or `None` where one is not a digit
/// or the value exceeds `max`.
fn digits_from(s: &Vec<char>, from: usize, max: u64) -> (r: Option<u64>)
    requires
        from <= s.len(),
    ensures
        ({
            let d = s@.skip(from as int);
            match r {
                Some(v) => all_digits(d) && digits_value(d) <= max && v == digits_value(d),
                None => !(all_digits(d) && digits_value(d) <= max),
            }
        }),
{
    let ghost d = s@.skip(from as int);
    let mut acc: u64 = 0;
    let mut i: usize = from;
    while i < s.len()
        invariant
            from <= i <= s.len(),
            d == s@.skip(from as int),
            all_digits(d.take(i - from)),
            acc == digits_value(d.take(i - from)),
            acc <= max,
        decreases s.len() - i,
    {
        let c = s[i];
        assert(d[i - from] == c);
        if !('0' <= c && c <= '9') {
            assert(!all_digits(d));
            return None;
        }
        let dv = (c as u32 - '0' as u32) as u64;
        assert(d.take(i + 1 - from).drop_last() =~= d.take(i - from));
        assert(d.take(i + 1 - from).last() == c);
        if dv > max || acc > (max - dv) / 10 {
            proof {
                if dv <= max {
                    assert(acc * 10 + dv > max) by (nonlinear_arith)
                        requires
                            acc > (max - dv) / 10,
                            dv <= max,
                    ;
                }
                lemma_digits_value_prefix(d, i + 1 - from);
            }
            return None;
        }
        assert(acc * 10 + dv <= max) by (nonlinear_arith)
            requires
                acc <= (max - dv) / 10,
                dv <= max,
        ;
        acc = acc * 10 + dv;
        i = i + 1;
    }
    assert(d.take(s.len() - from) =~= d);
    Some(acc)
}

/// `str::parse` into an unsigned integer type whose largest value is `max`.
pub fn parse_unsigned_chars(s: &Vec<char>, max: u64) -> (r: Option<u64>)
    ensures
        match r {
            Some(v) => parse_unsigned(s@, max as nat) == Some(v as nat),
            None => parse_unsigned(s@, max as nat) is None,
        },
{
    let from: usize = if s.len() > 0 && s[0] == '+' {
        1
    } else {
        0
    };
    assert(s@.skip(from as int) == (if s@.len() > 0 && s@[0] == '+' {
        s@.drop_first()
    } else {
        s@
    }));
    if from == s.len() {
        return None;
    }
    digits_from(s, from, max)
}

/// `str::parse::<u32>`.
pub fn parse_u32_chars(s: &Vec<char>) -> (r: Option<u32>)
    ensures
        match r {
            Some(v) => parse_unsigned(s@, u32::MAX as nat) == Some(v as nat),
            None => parse_unsigned(s@, u32::MAX as nat) is None,
        },
{
    match parse_unsigned_chars(s, 0xFFFF_FFFF) {
        Some(v) => Some(v as u32),
        None => None,
    }
}

/// `str::parse::<i32>`.
pub fn parse_i32_chars(s: &Vec<char>) -> (r: Option<i32>)
    ensures
        match r {
            Some(v) => parse_i32_spec(s@) == Some(v as int),
            None => parse_i32_spec(s@) is None,
        },
{
    if s.len() > 0 && s[0] == '-' {
        if s.len() == 1 {
            return None;
        }
        assert(s@.skip(1) =~= s@.drop_first());
        match digits_from(s, 1, 0x8000_0000) {
            Some(v) => {
                let n: i64 = 0 - (v as i64);
                Some(n as i32)
            },
            None => None,
        }
    } else {
        match parse_unsigned_chars(s, 0x7FFF_FFFF) {
            Some(v) => Some(v as i32),
            None => None,
        }
    }
}

/// The decimal digit character for `d < 10`.
pub open spec fn digit_char(d: nat) -> char {
    (('0' as nat) + d) as char
}

/// The decimal representation of `n`, without leading zeros.
pub open spec fn decimal(n: nat) -> Seq<char>
    decreases n,
{
    if n < 10 {
        seq![digit_char(n)]
    } else {
        decimal(n / 10).push(digit_char(n % 10))
    }
}

/// The decimal representation of `n`, with a leading `-` when negative,
/// as `Display` writes an integer.
pub open spec fn signed_decimal(n: int) -> Seq<char> {
    if n < 0 {
        seq!['-'] + decimal((-n) as nat)
    } else {
        decimal(n as nat)
    }
}

/// Appends the decimal representation of `n` to `s`.
pub fn push_decimal(s: &mut String, n: u64)
    ensures
        final(s)@ == old(s)@ + decimal(n as nat),
    decreases n,
{
    if n >= 10 {
        push_decimal(s, n / 10);
    }
    let d = (n % 10) as u8;
    let c = (48u8 + d) as char;
    assert(c == digit_char((n % 10) as nat));
    s.push(c);
}

/// Appends the decimal representation of `n` to `s`, with `-` when negative.
pub fn push_signed_decimal(s: &mut String, n: i32)
    ensures
        final(s)@ == old(s)@ + signed_decimal(n as int),
{
    if n < 0 {
        s.push('-');
        let m: i64 = 0 - (n as i64);
        push_decimal(s, m as u64);
    } else {
        push_decimal(s, n as u64);
    }
}

/// A decimal representation reads back as the number it came from.
pub proof fn lemma_decimal_digits(n: nat)
    ensures
        decimal(n).len() > 0,
        all_digits(decimal(n)),
        digits_value(decimal(n)) == n,
    decreases n,
{
    let d = decimal(n);
    let m = (n % 10) as nat;
    assert(digit_char(m) as nat == 48 + m);
    if n >= 10 {
        lemma_decimal_digits(n / 10);
        assert(d.drop_last() =~= decimal(n / 10));
        assert(d.last() == digit_char(m));
        assert forall|i: int| 0 <= i < d.len() implies is_digit(#[trigger] d[i]) by {
            if i < d.len() - 1 {
                assert(d[i] == decimal(n / 10)[i]);
            }
        }
        assert(digits_value(d) == digits_value(decimal(n / 10)) * 10 + m);
    } else {
        assert(m == n);
        assert(d.drop_last() =~= Seq::<char>::empty());
        assert(digits_value(d) == digits_value(d.drop_last()) * 10 + m);
    }
}

} // verus!
