//! Naming of destination files and reading of HTTP response heads.

use vstd::prelude::*;
use vstd::string::{StrSliceExecFns, StringExecFns};
use vstd::set_lib::lemma_len_subset;
use crate::text::{decimal, lemma_decimal_injective, lemma_decimal_len, push_char, push_decimal};

verus! {

/// A message from the user to the downloader.
pub enum SendMessage {
    /// Download `url` into the directory `location`.
    QueueNew { url: String, location: String },
    /// Cancel the download of file `name` and remove what it wrote.
    Delete { name: String },
}

/// Index of the first `c` in `s`, or -1.
pub open spec fn first_index_of(s: Seq<char>, c: char) -> int
    decreases s.len(),
{
    if s.len() == 0 {
        -1
    } else if s[0] == c {
        0
    } else {
        let p = first_index_of(s.drop_first(), c);
        if p < 0 {
            -1
        } else {
            p + 1
        }
    }
}

proof fn lemma_first_index_of(s: Seq<char>, c: char, i: int)
    requires
        0 <= i <= s.len(),
        forall|j: int| 0 <= j < i ==> s[j] != c,
        i < s.len() ==> s[i] == c,
    ensures
        first_index_of(s, c) == if i < s.len() {
            i
        } else {
            -1
        },
    decreases s.len(),
{
    if s.len() > 0 && i > 0 {
        lemma_first_index_of(s.drop_first(), c, i - 1);
    }
}

/// Candidate number `k` for a file called `base`: the name itself first,
/// then the name with ` (0)`, ` (1)`, ... put before its first dot, or
/// after it when it has no dot.
pub open spec fn candidate_name(base: Seq<char>, k: nat) -> Seq<char> {
    let d = first_index_of(base, '.');
    if k == 0 {
        base
    } else if d < 0 {
        base + " ("@ + decimal((k - 1) as nat) + ")"@
    } else {
        base.take(d) + " ("@ + decimal((k - 1) as nat) + ")"@ + base.skip(d)
    }
}

pub open spec fn is_taken(taken: Seq<String>, name: Seq<char>) -> bool {
    exists|i: int| 0 <= i < taken.len() && #[trigger] taken[i]@ == name
}

fn contains_name(taken: &Vec<String>, name: &String) -> (r: bool)
    ensures
        r == is_taken(taken@, name@),
{
    let mut i: usize = 0;
    while i < taken.len()
        invariant
            i <= taken@.len(),
            forall|j: int| 0 <= j < i ==> taken@[j]@ != name@,
        decreases taken@.len() - i,
    {
        if taken[i] == *name {
            return true;
        }
        i = i + 1;
    }
    false
}

fn candidate(base: &str, dot: Option<usize>, k: usize) -> (r: String)
    requires
        dot is None ==> first_index_of(base@, '.') == -1,
        dot matches Some(d) ==> first_index_of(base@, '.') == d && d < base@.len(),
    ensures
        r@ == candidate_name(base@, k as nat),
{
    let mut s = String::new();
    if k == 0 {
        s.append(base);
        assert(s@ =~= base@);
        return s;
    }
    match dot {
        None => {
            s.append(base);
            s.append(" (");
            push_decimal(&mut s, k - 1);
            s.append(")");
        },
        Some(d) => {
            s.append(base.substring_char(0, d));
            s.append(" (");
            push_decimal(&mut s, k - 1);
            s.append(")");
            s.append(base.substring_char(d, base.unicode_len()));
        },
    }
    assert(s@ =~= candidate_name(base@, k as nat));
    s
}

/// Index of the last `c` in `s`, or -1.
pub open spec fn last_index_of(s: Seq<char>, c: char) -> int
    decreases s.len(),
{
    if s.len() == 0 {
        -1
    } else if s.last() == c {
        s.len() - 1
    } else {
        last_index_of(s.drop_last(), c)
    }
}

proof fn lemma_last_index_of(s: Seq<char>, c: char, i: int)
    requires
        0 <= i <= s.len(),
        forall|j: int| i <= j < s.len() ==> s[j] != c,
        i > 0 ==> s[i - 1] == c,
    ensures
        last_index_of(s, c) == i - 1,
    decreases s.len(),
{
    if s.len() > 0 && i < s.len() {
        lemma_last_index_of(s.drop_last(), c, i);
    }
}

/// The file name a URL points at: the text after its last `/`. None when
/// the URL holds no `/`.
pub fn url_file_name(url: &str) -> (r: Option<String>)
    ensures
        last_index_of(url@, '/') < 0 ==> r is None,
        last_index_of(url@, '/') >= 0 ==> (r matches Some(name) && name@ == url@.skip(
            last_index_of(url@, '/') + 1,
        )),
{
    let len = url.unicode_len();
    let mut i = len;
    while i > 0
        invariant
            len == url@.len(),
            i <= len,
            forall|j: int| i <= j < len ==> url@[j] != '/',
        decreases i,
    {
        if url.get_char(i - 1) == '/' {
            proof {
                lemma_last_index_of(url@, '/', i as int);
            }
            let mut name = String::new();
            name.append(url.substring_char(i, len));
            assert(name@ =~= url@.skip(i as int));
            return Some(name);
        }
        i = i - 1;
    }
    proof {
        lemma_last_index_of(url@, '/', 0);
    }
    None
}

proof fn lemma_first_index_of_range(s: Seq<char>, c: char)
    ensures
        -1 <= first_index_of(s, c) < s.len(),
    decreases s.len(),
{
    if s.len() > 0 {
        lemma_first_index_of_range(s.drop_first(), c);
    }
}

/// Candidate names are pairwise different.
pub proof fn lemma_candidates_distinct(base: Seq<char>, k: nat, j: nat)
    requires
        k != j,
    ensures
        candidate_name(base, k) != candidate_name(base, j),
{
    lemma_first_index_of_range(base, '.');
    let d = first_index_of(base, '.');
    if k > 0 && j > 0 {
        let (x, y) = if d < 0 {
            (base + " ("@, ")"@)
        } else {
            (base.take(d) + " ("@, ")"@ + base.skip(d))
        };
        let (dk, dj) = (decimal((k - 1) as nat), decimal((j - 1) as nat));
        assert(candidate_name(base, k) =~= x + dk + y);
        assert(candidate_name(base, j) =~= x + dj + y);
        if candidate_name(base, k) == candidate_name(base, j) {
            let c = x + dk + y;
            assert(dk.len() == dj.len());
            assert(dk =~= c.subrange(x.len() as int, (x.len() + dk.len()) as int));
            assert(dj =~= (x + dj + y).subrange(x.len() as int, (x.len() + dj.len()) as int));
            lemma_decimal_injective((k - 1) as nat, (j - 1) as nat);
        }
    } else {
        let m = if k > 0 {
            k
        } else {
            j
        };
        lemma_decimal_len((m - 1) as nat);
        if d >= 0 {
            assert(base.take(d).len() + base.skip(d).len() == base.len());
        }
        assert(candidate_name(base, m).len() > base.len());
    }
}

/// The first candidate name for `base` that is not among the names
/// `taken`. The candidates tried are `base` itself, then the name with
/// ` (0)`, ` (1)`, ... put before its first dot; a name without a dot gets
/// the number at its end. Among `taken.len() + 1` different candidates one
/// is always free.
pub fn get_unused_filename(base: &str, taken: &Vec<String>) -> (r: Option<String>)
    requires
        taken@.len() < usize::MAX,
    ensures
        r matches Some(name) ==> exists|k: nat|
            k <= taken@.len() && name@ == candidate_name(base@, k) && !is_taken(taken@, name@)
                && forall|j: nat| j < k ==> is_taken(taken@, #[trigger] candidate_name(base@, j)),
        r is Some,
{
    let len = base.unicode_len();
    let mut dot: Option<usize> = None;
    let mut i: usize = 0;
    while i < len
        invariant_except_break
            dot is None,
        invariant
            len == base@.len(),
            i <= len,
            forall|j: int| 0 <= j < i ==> base@[j] != '.',
        ensures
            (dot is None && i == len) || (dot == Some(i) && i < len && base@[i as int] == '.'),
        decreases len - i,
    {
        if base.get_char(i) == '.' {
            dot = Some(i);
            break;
        }
        i = i + 1;
    }
    proof {
        lemma_first_index_of(base@, '.', i as int);
    }
    let mut k: usize = 0;
    while k <= taken.len()
        invariant
            taken@.len() < usize::MAX,
            dot is None ==> first_index_of(base@, '.') == -1,
            dot matches Some(d) ==> first_index_of(base@, '.') == d && d < base@.len(),
            k <= taken@.len() + 1,
            forall|j: nat| j < k ==> is_taken(taken@, #[trigger] candidate_name(base@, j)),
        decreases taken@.len() + 1 - k,
    {
        let name = candidate(base, dot, k);
        if !contains_name(taken, &name) {
            return Some(name);
        }
        k = k + 1;
    }
    proof {
        let n = taken@.len();
        let cands = Seq::new(n + 1, |k: int| candidate_name(base@, k as nat));
        assert forall|a: int, b: int| 0 <= a < cands.len() && 0 <= b < cands.len() && a != b implies cands[a] != cands[b] by {
            lemma_candidates_distinct(base@, a as nat, b as nat);
        }
        cands.unique_seq_to_set();
        let names = taken@.map_values(|t: String| t@);
        names.lemma_cardinality_of_set();
        assert forall|c: Seq<char>| cands.to_set().contains(c) implies names.to_set().contains(c) by {
            let k = choose|k: int| 0 <= k < cands.len() && cands[k] == c;
            assert(is_taken(taken@, candidate_name(base@, k as nat)));
            let i = choose|i: int| 0 <= i < taken@.len() && #[trigger] taken@[i]@ == c;
            assert(names[i] == c);
        }
        vstd::seq_lib::seq_to_set_is_finite(names);
        lemma_len_subset(cands.to_set(), names.to_set());
    }
    None
}

/// White space as `str::trim` sees it among the first 256 code points,
/// which are all that a head read byte by byte can hold.
pub open spec fn is_blank(c: char) -> bool {
    c == ' ' || c == '\t' || c == '\n' || c == '\x0B' || c == '\x0C' || c == '\r' || c == '\u{85}'
        || c == '\u{A0}'
}

/// The head's bytes read one character each.
pub open spec fn head_chars(head: Seq<u8>) -> Seq<char> {
    head.map_values(|b: u8| b as char)
}

/// The lines of `s`, split at each `\n`, which is dropped.
pub open spec fn lines_of(s: Seq<char>) -> Seq<Seq<char>>
    decreases s.len(),
{
    if s.len() == 0 {
        seq![Seq::empty()]
    } else {
        let l = lines_of(s.drop_last());
        if s.last() == '\n' {
            l.push(Seq::empty())
        } else {
            l.update(l.len() - 1, l.last().push(s.last()))
        }
    }
}

/// Number of blanks at the start of `s`.
pub open spec fn lead(s: Seq<char>) -> nat
    decreases s.len(),
{
    if s.len() > 0 && is_blank(s[0]) {
        1 + lead(s.drop_first())
    } else {
        0
    }
}

/// Number of blanks at the end of `s`.
pub open spec fn trail(s: Seq<char>) -> nat
    decreases s.len(),
{
    if s.len() > 0 && is_blank(s.last()) {
        1 + trail(s.drop_last())
    } else {
        0
    }
}

/// `s` without blanks at either end.
pub open spec fn trimmed(s: Seq<char>) -> Seq<char> {
    let a = s.skip(lead(s) as int);
    a.take(a.len() - trail(a))
}

/// Index of the first `": "` in `s`, or -1.
pub open spec fn separator_at(s: Seq<char>) -> int
    decreases s.len(),
{
    if s.len() < 2 {
        -1
    } else if s[0] == ':' && s[1] == ' ' {
        0
    } else {
        let q = separator_at(s.drop_first());
        if q < 0 {
            -1
        } else {
            q + 1
        }
    }
}

/// The name and value a header line holds: the trimmed line split at its
/// first `": "`. A line without one holds no header.
pub open spec fn line_pair(line: Seq<char>) -> Option<(Seq<char>, Seq<char>)> {
    let t = trimmed(line);
    let p = separator_at(t);
    if p < 0 {
        None
    } else {
        Some((t.take(p), t.skip(p + 2)))
    }
}

/// The headers held by `lines`, in order.
pub open spec fn pairs_of(lines: Seq<Seq<char>>) -> Seq<(Seq<char>, Seq<char>)>
    decreases lines.len(),
{
    if lines.len() == 0 {
        Seq::empty()
    } else {
        let r = pairs_of(lines.drop_last());
        match line_pair(lines.last()) {
            Some(p) => r.push(p),
            None => r,
        }
    }
}

/// The headers of a response head, names as written.
pub open spec fn header_pairs(head: Seq<u8>) -> Seq<(Seq<char>, Seq<char>)> {
    pairs_of(lines_of(head_chars(head)))
}

pub open spec fn pair_views(v: Seq<(String, String)>) -> Seq<(Seq<char>, Seq<char>)> {
    v.map_values(|p: (String, String)| (p.0@, p.1@))
}

pub uninterp spec fn lower_of(s: Seq<char>) -> Seq<char>;

/// Relies on `str::to_lowercase`: the lowercase form depends on the
/// characters alone, and an empty text stays empty.
#[verifier::external_body]
fn lowercase(s: &str) -> (r: String)
    ensures
        r@ == lower_of(s@),
        s@.len() == 0 ==> r@.len() == 0,
{
    s.to_lowercase()
}

proof fn lemma_separator_at(s: Seq<char>, i: int)
    requires
        0 <= i,
        forall|j: int| 0 <= j < i && j + 1 < s.len() ==> !(#[trigger] s[j] == ':' && s[j + 1] == ' '),
        i + 1 < s.len() ==> s[i] == ':' && s[i + 1] == ' ',
    ensures
        separator_at(s) == if i + 1 < s.len() {
            i
        } else {
            -1
        },
    decreases s.len(),
{
    if s.len() >= 2 && i > 0 {
        lemma_separator_at(s.drop_first(), i - 1);
    }
}

fn is_blank_exec(c: char) -> (r: bool)
    ensures
        r == is_blank(c),
{
    c == ' ' || c == '\t' || c == '\n' || c == '\x0B' || c == '\x0C' || c == '\r' || c == '\u{85}'
        || c == '\u{A0}'
}

fn string_of(chars: &Vec<char>, from: usize, to: usize) -> (r: String)
    requires
        from <= to <= chars@.len(),
    ensures
        r@ == chars@.subrange(from as int, to as int),
{
    let mut s = String::new();
    let mut i = from;
    while i < to
        invariant
            from <= i <= to <= chars@.len(),
            s@ == chars@.subrange(from as int, i as int),
        decreases to - i,
    {
        push_char(&mut s, chars[i]);
        i = i + 1;
        assert(s@ =~= chars@.subrange(from as int, i as int));
    }
    s
}

fn parse_line(line: &Vec<char>) -> (r: Option<(String, String)>)
    ensures
        r is None <==> line_pair(line@) is None,
        r matches Some(p) ==> line_pair(line@) == Some((p.0@, p.1@)),
{
    let ghost s = line@;
    let n = line.len();
    let mut lo: usize = 0;
    assert(s.skip(0) =~= s);
    while lo < n && is_blank_exec(line[lo])
        invariant
            lo <= n == s.len(),
            s == line@,
            lead(s) == lo + lead(s.skip(lo as int)),
        decreases n - lo,
    {
        assert(s.skip(lo as int).drop_first() =~= s.skip(lo + 1));
        lo = lo + 1;
    }
    assert(lead(s.skip(lo as int)) == 0);
    let ghost a = s.skip(lo as int);
    let mut hi: usize = n;
    while hi > lo && is_blank_exec(line[hi - 1])
        invariant
            lo <= hi <= n == s.len(),
            s == line@,
            a == s.skip(lo as int),
            trail(a) == (n - hi) + trail(s.subrange(lo as int, hi as int)),
        decreases hi,
    {
        assert(s.subrange(lo as int, hi as int).drop_last() =~= s.subrange(lo as int, hi - 1));
        hi = hi - 1;
    }
    assert(trail(s.subrange(lo as int, hi as int)) == 0);
    let ghost t = s.subrange(lo as int, hi as int);
    assert(trimmed(s) =~= t);
    let mut p: usize = lo;
    while hi - p > 1
        invariant
            lo <= p <= hi,
            hi <= n == s.len(),
            s == line@,
            t == s.subrange(lo as int, hi as int),
            trimmed(s) == t,
            forall|j: int|
                0 <= j < p - lo && j + 1 < t.len() ==> !(#[trigger] t[j] == ':' && t[j + 1] == ' '),
        decreases hi - p,
    {
        if line[p] == ':' && line[p + 1] == ' ' {
            assert(t[p - lo] == ':' && t[p - lo + 1] == ' ');
            proof {
                lemma_separator_at(t, p - lo);
            }
            let name = string_of(line, lo, p);
            let value = string_of(line, p + 2, hi);
            assert(name@ =~= t.take(p - lo));
            assert(value@ =~= t.skip(p - lo + 2));
            return Some((name, value));
        }
        p = p + 1;
    }
    proof {
        lemma_separator_at(t, t.len() as int);
    }
    None
}

/// The headers of a response head, in the order of their lines, with names
/// as written.
pub fn split_header_lines(head: &[u8]) -> (r: Vec<(String, String)>)
    ensures
        pair_views(r@) == header_pairs(head@),
{
    let ghost text = head_chars(head@);
    let ghost mut done: Seq<Seq<char>> = Seq::empty();
    let mut out: Vec<(String, String)> = Vec::new();
    let mut line: Vec<char> = Vec::new();
    let mut i: usize = 0;
    assert(text.take(0) =~= Seq::<char>::empty());
    assert(lines_of(Seq::<char>::empty()) =~= done.push(line@));
    while i < head.len()
        invariant
            i <= head@.len(),
            text == head_chars(head@),
            lines_of(text.take(i as int)) == done.push(line@),
            pair_views(out@) == pairs_of(done),
        decreases head@.len() - i,
    {
        let c = head[i] as char;
        assert(text.take(i + 1).drop_last() =~= text.take(i as int));
        assert(text.take(i + 1).last() == c);
        if c == '\n' {
            let ghost prev = out@;
            match parse_line(&line) {
                Some(pair) => {
                    out.push(pair);
                },
                None => {},
            }
            proof {
                assert(done.push(line@).drop_last() =~= done);
                assert(pair_views(out@) =~= pairs_of(done.push(line@)));
                done = done.push(line@);
            }
            line = Vec::new();
            assert(lines_of(text.take(i + 1)) =~= done.push(line@));
        } else {
            line.push(c);
            assert(lines_of(text.take(i + 1)) =~= done.push(line@));
        }
        i = i + 1;
    }
    assert(text.take(head@.len() as int) =~= text);
    match parse_line(&line) {
        Some(pair) => {
            out.push(pair);
        },
        None => {},
    }
    assert(done.push(line@).drop_last() =~= done);
    assert(pair_views(out@) =~= pairs_of(done.push(line@)));
    out
}

/// Whether the four bytes of `s` from `p` on are `\r\n\r\n`.
pub open spec fn blank_line_starts(s: Seq<u8>, p: int) -> bool {
    &&& 0 <= p
    &&& p + 4 <= s.len()
    &&& s[p] == 13u8 && s[p + 1] == 10u8 && s[p + 2] == 13u8 && s[p + 3] == 10u8
}

/// Index of the first `\r\n\r\n` in `s`, or -1.
pub open spec fn blank_line_at(s: Seq<u8>) -> int
    decreases s.len(),
{
    if s.len() < 4 {
        -1
    } else if blank_line_starts(s, 0) {
        0
    } else {
        let q = blank_line_at(s.drop_first());
        if q < 0 {
            -1
        } else {
            q + 1
        }
    }
}

/// How much of `s` the head takes: up to and including the first blank
/// line, or all of it when there is none.
pub open spec fn head_end(s: Seq<u8>) -> int {
    if blank_line_at(s) < 0 {
        s.len() as int
    } else {
        blank_line_at(s) + 4
    }
}

proof fn lemma_blank_line_at(s: Seq<u8>, i: int)
    requires
        0 <= i,
        forall|j: int| 0 <= j < i ==> !#[trigger] blank_line_starts(s, j),
        i + 4 <= s.len() ==> blank_line_starts(s, i),
    ensures
        blank_line_at(s) == if i + 4 <= s.len() {
            i
        } else {
            -1
        },
    decreases s.len(),
{
    if s.len() >= 4 && i > 0 {
        assert forall|j: int| 0 <= j < i - 1 implies !#[trigger] blank_line_starts(
            s.drop_first(),
            j,
        ) by {
            assert(!blank_line_starts(s, j + 1));
        }
        assert(!blank_line_starts(s, 0));
        lemma_blank_line_at(s.drop_first(), i - 1);
    }
}

/// The length of the head at the start of `bytes`, its closing blank line
/// included; none when `bytes` holds no blank line. A reader stops there:
/// what follows is the body.
pub fn head_length(bytes: &[u8]) -> (r: Option<usize>)
    ensures
        r is None <==> blank_line_at(bytes@) < 0,
        r matches Some(n) ==> n == blank_line_at(bytes@) + 4 && n == head_end(bytes@) && n
            <= bytes@.len(),
{
    let n = bytes.len();
    let mut p: usize = 0;
    while n >= 4 && p <= n - 4
        invariant
            n == bytes@.len(),
            forall|j: int| 0 <= j < p ==> !#[trigger] blank_line_starts(bytes@, j),
        decreases n - p,
    {
        if bytes[p] == 13u8 && bytes[p + 1] == 10u8 && bytes[p + 2] == 13u8 && bytes[p + 3]
            == 10u8 {
            proof {
                lemma_blank_line_at(bytes@, p as int);
            }
            return Some(p + 4);
        }
        p = p + 1;
    }
    proof {
        lemma_blank_line_at(bytes@, p as int);
    }
    None
}

/// The headers of the response head at the start of `bytes`, in the order
/// of their lines, with names in lowercase. Reading stops after the first
/// blank line, so nothing of the body is taken; lines that hold no `": "`
/// are skipped.
pub fn get_headers(bytes: &[u8]) -> (r: Vec<(String, String)>)
    ensures
        r@.len() == header_pairs(bytes@.take(head_end(bytes@))).len(),
        forall|k: int|
            0 <= k < r@.len() ==> r@[k].0@ == lower_of(
                header_pairs(bytes@.take(head_end(bytes@)))[k].0,
            ) && r@[k].1@ == header_pairs(bytes@.take(head_end(bytes@)))[k].1,
{
    let end = match head_length(bytes) {
        Some(n) => n,
        None => bytes.len(),
    };
    let head = vstd::slice::slice_subrange(bytes, 0, end);
    assert(head@ =~= bytes@.take(head_end(bytes@)));
    let raw = split_header_lines(head);
    let ghost pairs = header_pairs(bytes@.take(head_end(bytes@)));
    let mut out: Vec<(String, String)> = Vec::new();
    let mut k: usize = 0;
    while k < raw.len()
        invariant
            k <= raw@.len(),
            pair_views(raw@) == pairs,
            out@.len() == k,
            forall|j: int|
                0 <= j < k ==> out@[j].0@ == lower_of(pairs[j].0) && out@[j].1@ == pairs[j].1,
        decreases raw@.len() - k,
    {
        assert(pair_views(raw@)[k as int] == (raw@[k as int].0@, raw@[k as int].1@));
        let name = lowercase(raw[k].0.as_str());
        let value = raw[k].1.clone();
        out.push((name, value));
        k = k + 1;
    }
    out
}

/// The value of the last header named `name` (compared as written), as a
/// map built from the headers in order would hold it.
pub fn header_value(headers: &Vec<(String, String)>, name: &str) -> (r: Option<String>)
    ensures
        r is None ==> forall|k: int| 0 <= k < headers@.len() ==> headers@[k].0@ != name@,
        r matches Some(v) ==> exists|k: int|
            0 <= k < headers@.len() && headers@[k].0@ == name@ && v == headers@[k].1 && forall|
                j: int,
            |
                k < j < headers@.len() ==> headers@[j].0@ != name@,
{
    let wanted = String::from_str(name);
    let mut k = headers.len();
    while k > 0
        invariant
            wanted@ == name@,
            k <= headers@.len(),
            forall|j: int| k <= j < headers@.len() ==> headers@[j].0@ != name@,
        decreases k,
    {
        k = k - 1;
        if headers[k].0 == wanted {
            return Some(headers[k].1.clone());
        }
    }
    None
}

} // verus!
