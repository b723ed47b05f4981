//! Splitting and trimming of delimited text.
//!
//! The tabular sources are plain text: a header line followed by one
//! record per line, fields separated by tabs. `spec_split` and
//! `spec_trim` give the mathematical meaning of the two operations, and
//! `spec_records` composes them into the view of a whole source. The
//! executable functions are proved to return exactly those values.
//!
//! Trimming removes the four ASCII whitespace characters (space, tab,
//! line feed, carriage return); the sources are ASCII-delimited, so
//! nothing wider is needed.

use vstd::prelude::*;

verus! {

/// The whitespace characters removed by trimming.
pub open spec fn is_ws_char(c: char) -> bool {
    c == ' ' || c == '\t' || c == '\n' || c == '\r'
}

fn is_ws_exec(c: char) -> (r: bool)
    ensures
        r == is_ws_char(c),
{
    c == ' ' || c == '\t' || c == '\n' || c == '\r'
}

/// `s` without its leading whitespace.
pub open spec fn spec_trim_start(s: Seq<char>) -> Seq<char>
    decreases s.len(),
{
    if s.len() > 0 && is_ws_char(s[0]) {
        spec_trim_start(s.skip(1))
    } else {
        s
    }
}

/// `s` without its trailing whitespace.
pub open spec fn spec_trim_end(s: Seq<char>) -> Seq<char>
    decreases s.len(),
{
    if s.len() > 0 && is_ws_char(s.last()) {
        spec_trim_end(s.drop_last())
    } else {
        s
    }
}

/// `s` without leading or trailing whitespace.
pub open spec fn spec_trim(s: Seq<char>) -> Seq<char> {
    spec_trim_end(spec_trim_start(s))
}

proof fn lemma_trim_start_skip(s: Seq<char>, a: int)
    requires
        0 <= a <= s.len(),
        forall|k: int| 0 <= k < a ==> is_ws_char(s[k]),
        a == s.len() || !is_ws_char(s[a]),
    ensures
        spec_trim_start(s) == s.skip(a),
    decreases a,
{
    if a == 0 {
        assert(s.skip(0) =~= s);
    } else {
        lemma_trim_start_skip(s.skip(1), a - 1);
        assert(s.skip(1).skip(a - 1) =~= s.skip(a));
    }
}

proof fn lemma_trim_end_take(s: Seq<char>, b: int)
    requires
        0 <= b <= s.len(),
        forall|k: int| b <= k < s.len() ==> is_ws_char(s[k]),
        b == 0 || !is_ws_char(s[b - 1]),
    ensures
        spec_trim_end(s) == s.take(b),
    decreases s.len() - b,
{
    if b == s.len() {
        assert(s.take(b) =~= s);
    } else {
        assert(is_ws_char(s.last()));
        lemma_trim_end_take(s.drop_last(), b);
        assert(s.drop_last().take(b) =~= s.take(b));
    }
}

/// `s` with leading and trailing whitespace removed.
pub fn trim_str(s: &str) -> (r: &str)
    ensures
        r@ == spec_trim(s@),
{
    let n: usize = s.unicode_len();
    let mut a: usize = 0;
    while a < n && is_ws_exec(s.get_char(a))
        invariant
            0 <= a <= n,
            n == s@.len(),
            forall|k: int| 0 <= k < a ==> is_ws_char(s@[k]),
        decreases n - a,
    {
        a = a + 1;
    }
    let mut b: usize = n;
    while b > a && is_ws_exec(s.get_char(b - 1))
        invariant
            a <= b <= n,
            n == s@.len(),
            forall|k: int| b <= k < n ==> is_ws_char(s@[k]),
        decreases b,
    {
        b = b - 1;
    }
    proof {
        lemma_trim_start_skip(s@, a as int);
        lemma_trim_end_take(s@.skip(a as int), b - a);
        assert(s@.skip(a as int).take(b - a) =~= s@.subrange(a as int, b as int));
    }
    s.substring_char(a, b)
}

/// The fields of `s` delimited by `sep`, in order; always at least one
/// field, and empty fields are kept, as with splitting on a single
/// character in ordinary Rust.
pub open spec fn spec_split(s: Seq<char>, sep: char) -> Seq<Seq<char>>
    decreases s.len(),
{
    if s.len() == 0 {
        seq![Seq::<char>::empty()]
    } else if s[0] == sep {
        seq![Seq::<char>::empty()] + spec_split(s.skip(1), sep)
    } else {
        let rest = spec_split(s.skip(1), sep);
        seq![seq![s[0]] + rest[0]] + rest.skip(1)
    }
}

pub proof fn lemma_split_min_len(s: Seq<char>, sep: char)
    ensures
        spec_split(s, sep).len() >= 1,
    decreases s.len(),
{
    if s.len() > 0 && s[0] != sep {
        lemma_split_min_len(s.skip(1), sep);
    }
}

/// Where `s` holds no separator before position `i`, splitting peels off
/// `s.take(i)` whole: either `i` is the first separator, or there is
/// none and `s` is a single field.
proof fn lemma_split_at_sep(s: Seq<char>, sep: char, i: int)
    requires
        0 <= i <= s.len(),
        forall|k: int| 0 <= k < i ==> s[k] != sep,
        i == s.len() || s[i] == sep,
    ensures
        i == s.len() ==> spec_split(s, sep) == seq![s],
        i < s.len() ==> spec_split(s, sep) == seq![s.take(i)] + spec_split(s.skip(i + 1), sep),
    decreases i,
{
    if i == 0 {
        if s.len() == 0 {
            assert(s =~= Seq::<char>::empty());
        } else {
            assert(s.take(0) =~= Seq::<char>::empty());
            assert(seq![s.take(0)] + spec_split(s.skip(1), sep) =~= seq![
                Seq::<char>::empty(),
            ] + spec_split(s.skip(1), sep));
        }
    } else {
        assert(s[0] != sep);
        let rest = spec_split(s.skip(1), sep);
        lemma_split_at_sep(s.skip(1), sep, i - 1);
        if i == s.len() {
            assert(rest == seq![s.skip(1)]);
            assert(seq![s[0]] + rest[0] =~= s);
            assert(rest.skip(1) =~= Seq::<Seq<char>>::empty());
            assert(seq![seq![s[0]] + rest[0]] + rest.skip(1) =~= seq![s]);
        } else {
            let tail = spec_split(s.skip(1).skip(i), sep);
            assert(rest == seq![s.skip(1).take(i - 1)] + tail);
            assert(seq![s[0]] + rest[0] =~= s.take(i));
            assert(rest.skip(1) =~= tail);
            assert(s.skip(1).skip(i) =~= s.skip(i + 1));
            assert(seq![seq![s[0]] + rest[0]] + rest.skip(1) =~= seq![s.take(i)] + spec_split(
                s.skip(i + 1),
                sep,
            ));
        }
    }
}

/// The fields of `s` delimited by `sep`.
pub fn split_str(s: &str, sep: char) -> (r: Vec<String>)
    ensures
        r.deep_view() == spec_split(s@, sep),
{
    let n: usize = s.unicode_len();
    let mut out: Vec<String> = Vec::new();
    let mut start: usize = 0;
    let mut i: usize = 0;
    proof {
        assert(out.deep_view() =~= Seq::<Seq<char>>::empty());
        assert(s@.skip(0) =~= s@);
        assert(Seq::<Seq<char>>::empty() + spec_split(s@, sep) =~= spec_split(s@, sep));
    }
    while i < n
        invariant
            0 <= start <= i <= n,
            n == s@.len(),
            forall|k: int| start <= k < i ==> s@[k] != sep,
            spec_split(s@, sep) == out.deep_view() + spec_split(s@.skip(start as int), sep),
        decreases n - i,
    {
        if s.get_char(i) == sep {
            let ghost prev = out.deep_view();
            let field = s.substring_char(start, i).to_owned();
            proof {
                lemma_split_at_sep(s@.skip(start as int), sep, i - start);
                assert(s@.skip(start as int).take(i - start) =~= s@.subrange(
                    start as int,
                    i as int,
                ));
                assert(s@.skip(start as int).skip(i - start + 1) =~= s@.skip(i + 1));
            }
            out.push(field);
            proof {
                assert(out.deep_view() =~= prev + seq![s@.subrange(start as int, i as int)]);
                assert(prev + seq![s@.subrange(start as int, i as int)] + spec_split(
                    s@.skip(i + 1),
                    sep,
                ) =~= prev + (seq![s@.subrange(start as int, i as int)] + spec_split(
                    s@.skip(i + 1),
                    sep,
                )));
            }
            start = i + 1;
        }
        i = i + 1;
    }
    let ghost prev = out.deep_view();
    let field = s.substring_char(start, n).to_owned();
    proof {
        lemma_split_at_sep(s@.skip(start as int), sep, n - start);
        assert(s@.skip(start as int) =~= s@.subrange(start as int, n as int));
    }
    out.push(field);
    proof {
        assert(out.deep_view() =~= prev + seq![s@.subrange(start as int, n as int)]);
    }
    out
}

/// The field sequences of each record of a source: the text is trimmed,
/// split into lines, the header line is dropped, and each remaining line
/// is trimmed and split into tab-separated fields.
pub open spec fn spec_records(text: Seq<char>) -> Seq<Seq<Seq<char>>> {
    spec_split(spec_trim(text), '\n').skip(1).map_values(
        |line: Seq<char>| spec_split(spec_trim(line), '\t'),
    )
}

/// Loads one delimited source: one field sequence per record, the header
/// line skipped.
pub fn read_records(text: &str) -> (r: Vec<Vec<String>>)
    ensures
        r.deep_view() == spec_records(text@),
{
    let trimmed = trim_str(text);
    let lines = split_str(trimmed, '\n');
    let mut out: Vec<Vec<String>> = Vec::new();
    let mut i: usize = 1;
    proof {
        lemma_split_min_len(trimmed@, '\n');
        assert(out.deep_view() =~= spec_records(text@).take(0));
    }
    while i < lines.len()
        invariant
            1 <= i <= lines@.len(),
            lines.deep_view() == spec_split(spec_trim(text@), '\n'),
            out.deep_view() == spec_records(text@).take(i - 1),
        decreases lines.len() - i,
    {
        let fields = split_str(trim_str(lines[i].as_str()), '\t');
        let ghost prev = out.deep_view();
        out.push(fields);
        proof {
            assert(out.deep_view() =~= prev.push(fields.deep_view()));
            assert(lines@[i as int]@ == lines.deep_view()[i as int]);
            assert(spec_records(text@).take(i as int) =~= prev.push(fields.deep_view()));
        }
        i = i + 1;
    }
    proof {
        assert(spec_records(text@).take(i - 1) =~= spec_records(text@));
    }
    out
}

} // verus!
