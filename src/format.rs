use vstd::prelude::*;
use crate::table::AffinityTable;

verus! {

broadcast use vstd::string::group_string_axioms;

/// The character that separates the fields of a record.
pub const SEPARATOR: char = ',';

/// The pieces of `s` between occurrences of `sep`; there is always one more
/// piece than there are separators.
pub open spec fn split_on(s: Seq<char>, sep: char) -> Seq<Seq<char>>
    decreases s.len(),
{
    if s.len() == 0 {
        seq![Seq::<char>::empty()]
    } else {
        let rest = split_on(s.drop_last(), sep);
        if s.last() == sep {
            rest.push(Seq::<char>::empty())
        } else {
            rest.update(rest.len() - 1, rest.last().push(s.last()))
        }
    }
}

/// Splitting always yields at least one piece.
pub proof fn lemma_split_nonempty(s: Seq<char>, sep: char)
    ensures
        split_on(s, sep).len() >= 1,
    decreases s.len(),
{
    if s.len() > 0 {
        lemma_split_nonempty(s.drop_last(), sep);
    }
}

/// `l` without one trailing carriage return.
pub open spec fn strip_cr(l: Seq<char>) -> Seq<char> {
    if l.len() > 0 && l.last() == '\r' {
        l.drop_last()
    } else {
        l
    }
}

/// The lines of `s`: pieces ended by `\n` (or `\r\n`), and a last piece
/// that no newline ends, when it is not empty.
pub open spec fn lines_of(s: Seq<char>) -> Seq<Seq<char>> {
    let p = split_on(s, '\n');
    let ended = p.drop_last().map_values(|l: Seq<char>| strip_cr(l));
    if p.last().len() == 0 {
        ended
    } else {
        ended.push(p.last())
    }
}

pub open spec fn is_digit(c: char) -> bool {
    '0' <= c && c <= '9'
}

/// `s` is one or more decimal digits.
pub open spec fn is_digits(s: Seq<char>) -> bool {
    s.len() > 0 && forall|i: int| 0 <= i < s.len() ==> is_digit(#[trigger] s[i])
}

/// The number written by the decimal digits `s`.
pub open spec fn digits_value(s: Seq<char>) -> int
    decreases s.len(),
{
    if s.len() == 0 {
        0
    } else {
        digits_value(s.drop_last()) * 10 + (s.last() as int - '0' as int)
    }
}

/// The integer that `s` writes: an optional `+` or `-`, then one or more
/// decimal digits, nothing else.
pub open spec fn integer_value(s: Seq<char>) -> Option<int> {
    let signed = s.len() > 0 && (s[0] == '-' || s[0] == '+');
    let body = if signed { s.skip(1) } else { s };
    if is_digits(body) {
        Some(if signed && s[0] == '-' { -digits_value(body) } else { digits_value(body) })
    } else {
        None
    }
}

/// The signed 32-bit integer that `s` writes, if it writes one in range.
pub open spec fn score_value(s: Seq<char>) -> Option<i32> {
    match integer_value(s) {
        Some(v) => if i32::MIN <= v <= i32::MAX { Some(v as i32) } else { None },
        None => None,
    }
}

/// The record that a line holds: its first field as the name and its second
/// field as the score, when there are at least two fields and the second is
/// an integer.
pub open spec fn record_of(line: Seq<char>) -> Option<(Seq<char>, i32)> {
    let f = split_on(line, SEPARATOR);
    if f.len() < 2 {
        None
    } else {
        match score_value(f[1]) {
            Some(v) => Some((f[0], v)),
            None => None,
        }
    }
}

/// `m` after the record of `line`, if any, was put into it.
pub open spec fn apply_line(m: Map<Seq<char>, i32>, line: Seq<char>) -> Map<Seq<char>, i32> {
    match record_of(line) {
        Some((k, v)) => m.insert(k, v),
        None => m,
    }
}

/// The table that the lines `ls` build, taken in order from an empty one.
pub open spec fn table_of_lines(ls: Seq<Seq<char>>) -> Map<Seq<char>, i32>
    decreases ls.len(),
{
    if ls.len() == 0 {
        Map::empty()
    } else {
        apply_line(table_of_lines(ls.drop_last()), ls.last())
    }
}

/// The table that an affinity text describes.
pub open spec fn table_of(text: Seq<char>) -> Map<Seq<char>, i32> {
    table_of_lines(lines_of(text))
}

/// The characters of `s`, in order.
pub fn chars_of(s: &str) -> (r: Vec<char>)
    ensures
        r@ == s@,
{
    let mut r: Vec<char> = Vec::new();
    for c in it: s.chars()
        invariant
            it.seq() == s@,
            r@ == it.seq().take(it.index() as int),
    {
        r.push(c);
    }
    r
}

/// Relies on `String::push`: appends one character.
#[verifier::external_body]
fn push_char(s: &mut String, c: char)
    ensures
        final(s)@ == old(s)@.push(c),
{
    s.push(c);
}

/// A string holding the characters `cs`.
pub fn string_of(cs: &[char]) -> (r: String)
    ensures
        r@ == cs@,
{
    let mut r = String::new();
    let mut i: usize = 0;
    while i < cs.len()
        invariant
            i <= cs@.len(),
            r@ == cs@.take(i as int),
        decreases cs@.len() - i,
    {
        push_char(&mut r, cs[i]);
        assert(cs@.take(i as int + 1) =~= cs@.take(i as int).push(cs@[i as int]));
        i = i + 1;
    }
    assert(cs@.take(cs@.len() as int) =~= cs@);
    r
}

/// The pieces of `s` between occurrences of `sep`.
pub fn split_chars(s: &[char], sep: char) -> (r: Vec<Vec<char>>)
    ensures
        r@.map_values(|p: Vec<char>| p@) == split_on(s@, sep),
{
    let mut done: Vec<Vec<char>> = Vec::new();
    let mut cur: Vec<char> = Vec::new();
    let mut i: usize = 0;
    while i < s.len()
        invariant
            i <= s@.len(),
            done@.map_values(|p: Vec<char>| p@).push(cur@) == split_on(s@.take(i as int), sep),
        decreases s@.len() - i,
    {
        let c = s[i];
        let ghost pre = done@.map_values(|p: Vec<char>| p@).push(cur@);
        assert(s@.take(i as int + 1).drop_last() =~= s@.take(i as int));
        if c == sep {
            let piece = cur;
            cur = Vec::new();
            done.push(piece);
            assert(done@.map_values(|p: Vec<char>| p@).push(cur@) =~= pre.push(Seq::<char>::empty()));
        } else {
            cur.push(c);
            assert(done@.map_values(|p: Vec<char>| p@).push(cur@) =~= pre.update(
                pre.len() - 1,
                pre.last().push(c),
            ));
        }
        i = i + 1;
    }
    assert(s@.take(s@.len() as int) =~= s@);
    done.push(cur);
    done
}

/// The value of the digits `cs[start..end]`, or `None` where a character
/// there is not a digit or the value exceeds `2^31`.
fn digits_in(cs: &[char], start: usize, end: usize) -> (r: Option<u64>)
    requires
        start <= end <= cs@.len(),
    ensures
        r matches Some(v) ==> v == digits_value(cs@.subrange(start as int, end as int))
            && v <= 0x8000_0000 && forall|j: int| start <= j < end ==> is_digit(#[trigger] cs@[j]),
        r is None ==> (exists|j: int| start <= j < end && !is_digit(#[trigger] cs@[j]))
            || digits_value(cs@.subrange(start as int, end as int)) > 0x8000_0000,
{
    let mut acc: u64 = 0;
    let mut big = false;
    let mut i: usize = start;
    while i < end
        invariant
            start <= i <= end <= cs@.len(),
            forall|j: int| start <= j < i ==> is_digit(#[trigger] cs@[j]),
            big ==> digits_value(cs@.subrange(start as int, i as int)) > 0x8000_0000,
            !big ==> acc == digits_value(cs@.subrange(start as int, i as int)) && acc <= 0x8000_0000,
        decreases end - i,
    {
        let c = cs[i];
        if !('0' <= c && c <= '9') {
            return None;
        }
        let ghost prev = digits_value(cs@.subrange(start as int, i as int));
        assert(cs@.subrange(start as int, i + 1).drop_last() =~= cs@.subrange(start as int, i as int));
        assert(digits_value(cs@.subrange(start as int, i + 1)) == prev * 10 + (c as int - '0' as int));
        if !big {
            let next: u64 = acc * 10 + (c as u64 - '0' as u64);
            if next > 0x8000_0000 {
                big = true;
            } else {
                acc = next;
            }
        } else {
            assert(prev * 10 >= prev) by (nonlinear_arith)
                requires prev > 0x8000_0000;
        }
        i = i + 1;
    }
    if big {
        None
    } else {
        Some(acc)
    }
}

/// The score that `cs` writes: an optional sign and decimal digits, in the
/// range of `i32`.
pub fn parse_score(cs: &[char]) -> (r: Option<i32>)
    ensures
        r == score_value(cs@),
{
    let n = cs.len();
    let signed = n > 0 && (cs[0] == '-' || cs[0] == '+');
    let start: usize = if signed { 1 } else { 0 };
    let ghost body = if signed { cs@.skip(1) } else { cs@ };
    assert(cs@.subrange(start as int, n as int) =~= body);
    if start == n {
        return None;
    }
    match digits_in(cs, start, n) {
        None => {
            proof {
                if forall|i: int| 0 <= i < body.len() ==> is_digit(#[trigger] body[i]) {
                    assert forall|j: int| start <= j < n implies is_digit(#[trigger] cs@[j]) by {
                        assert(body[j - start] == cs@[j]);
                    }
                }
            }
            None
        },
        Some(v) => {
            assert forall|i: int| 0 <= i < body.len() implies is_digit(#[trigger] body[i]) by {
                assert(body[i] == cs@[i + start]);
            }
            assert(integer_value(cs@) == Some(
                if signed && cs@[0] == '-' { -(v as int) } else { v as int },
            ));
            if signed && cs[0] == '-' {
                Some((0 - v as i64) as i32)
            } else if v <= 0x7fff_ffff {
                Some(v as i32)
            } else {
                None
            }
        },
    }
}

/// The first `n` characters of `cs`.
fn prefix(cs: &[char], n: usize) -> (r: Vec<char>)
    requires
        n <= cs@.len(),
    ensures
        r@ == cs@.take(n as int),
{
    let mut r: Vec<char> = Vec::new();
    let mut i: usize = 0;
    while i < n
        invariant
            i <= n <= cs@.len(),
            r@ == cs@.take(i as int),
        decreases n - i,
    {
        r.push(cs[i]);
        assert(cs@.take(i as int + 1) =~= cs@.take(i as int).push(cs@[i as int]));
        i = i + 1;
    }
    r
}

/// `cs` without one trailing carriage return.
fn without_cr(cs: &[char]) -> (r: Vec<char>)
    ensures
        r@ == strip_cr(cs@),
{
    let n = cs.len();
    if n > 0 && cs[n - 1] == '\r' {
        prefix(cs, n - 1)
    } else {
        let r = prefix(cs, n);
        assert(cs@.take(n as int) =~= cs@);
        r
    }
}

/// The record that the line `cs` holds.
fn record_in(cs: &[char]) -> (r: Option<(String, i32)>)
    ensures
        match r {
            Some((name, score)) => record_of(cs@) == Some((name@, score)),
            None => record_of(cs@) is None,
        },
{
    let fields = split_chars(cs, SEPARATOR);
    let ghost f = split_on(cs@, SEPARATOR);
    assert(fields@.map_values(|p: Vec<char>| p@).len() == fields@.len());
    if fields.len() < 2 {
        return None;
    }
    assert(fields@[1]@ == f[1]);
    assert(fields@[0]@ == f[0]);
    match parse_score(fields[1].as_slice()) {
        Some(score) => Some((string_of(fields[0].as_slice()), score)),
        None => None,
    }
}

/// The record that `line` holds: its first comma-separated field as the name
/// and its second as the score, or `None` where it has fewer than two fields
/// or the second is not an `i32`.
pub fn parse_line(line: &str) -> (r: Option<(String, i32)>)
    ensures
        match r {
            Some((name, score)) => record_of(line@) == Some((name@, score)),
            None => record_of(line@) is None,
        },
{
    let cs = chars_of(line);
    record_in(cs.as_slice())
}

/// The table that `text` describes: the records of its lines, taken in
/// order, a later record for a name replacing an earlier one; lines that
/// hold no record are skipped.
pub fn parse_affinity(text: &str) -> (t: AffinityTable)
    ensures
        t@ == table_of(text@),
{
    let cs = chars_of(text);
    let pieces = split_chars(cs.as_slice(), '\n');
    let ghost p = split_on(text@, '\n');
    assert(pieces@.map_values(|q: Vec<char>| q@).len() == pieces@.len());
    proof {
        lemma_split_nonempty(text@, '\n');
    }
    let mut t = AffinityTable::new();
    let last = pieces.len() - 1;
    let mut k: usize = 0;
    while k < last
        invariant
            last == pieces@.len() - 1,
            k <= last,
            pieces@.map_values(|q: Vec<char>| q@) == p,
            t@ == table_of_lines(p.take(k as int).map_values(|l: Seq<char>| strip_cr(l))),
        decreases last - k,
    {
        let line = without_cr(pieces[k].as_slice());
        assert(pieces@[k as int]@ == p[k as int]);
        let ghost done = p.take(k as int).map_values(|l: Seq<char>| strip_cr(l));
        assert(p.take(k + 1).map_values(|l: Seq<char>| strip_cr(l)) =~= done.push(line@));
        assert(done.push(line@).drop_last() =~= done);
        match record_in(line.as_slice()) {
            Some((name, score)) => {
                t = t.with(name, score);
            },
            None => {},
        }
        k = k + 1;
    }
    let ghost ended = p.drop_last().map_values(|l: Seq<char>| strip_cr(l));
    assert(p.take(last as int) =~= p.drop_last());
    assert(pieces@[last as int]@ == p.last());
    if pieces[last].len() > 0 {
        match record_in(pieces[last].as_slice()) {
            Some((name, score)) => {
                t = t.with(name, score);
            },
            None => {},
        }
        assert(ended.push(p.last()).drop_last() =~= ended);
    }
    t
}

/// The line `l` holds a record for the name `k`.
pub open spec fn names(l: Seq<char>, k: Seq<char>) -> bool {
    record_of(l) matches Some(r) && r.0 == k
}

/// The record of a line is in the table with its score unless a later line
/// holds a record for the same name: every well-formed line is applied, and
/// of several lines for one name the last wins.
pub proof fn lemma_last_record_wins(ls: Seq<Seq<char>>, i: int, k: Seq<char>, v: i32)
    requires
        0 <= i < ls.len(),
        record_of(ls[i]) == Some((k, v)),
        forall|j: int| i < j < ls.len() ==> !names(#[trigger] ls[j], k),
    ensures
        table_of_lines(ls).contains_key(k),
        table_of_lines(ls)[k] == v,
    decreases ls.len(),
{
    if i < ls.len() - 1 {
        let init = ls.drop_last();
        assert forall|j: int| i < j < init.len() implies !names(#[trigger] init[j], k) by {
            assert(init[j] == ls[j]);
        }
        lemma_last_record_wins(init, i, k, v);
        assert(!names(ls[ls.len() - 1], k));
    }
}

/// A name for which no line holds a record is not in the table.
pub proof fn lemma_absent_name_not_found(ls: Seq<Seq<char>>, k: Seq<char>)
    requires
        forall|j: int| 0 <= j < ls.len() ==> !names(#[trigger] ls[j], k),
    ensures
        !table_of_lines(ls).contains_key(k),
    decreases ls.len(),
{
    if ls.len() > 0 {
        let init = ls.drop_last();
        assert forall|j: int| 0 <= j < init.len() implies !names(#[trigger] init[j], k) by {
            assert(init[j] == ls[j]);
        }
        lemma_absent_name_not_found(init, k);
        assert(!names(ls[ls.len() - 1], k));
    }
}

/// A line that holds no record can be taken out of the lines without
/// changing the table they build.
pub proof fn lemma_recordless_line_ignored(ls: Seq<Seq<char>>, i: int)
    requires
        0 <= i < ls.len(),
        record_of(ls[i]) is None,
    ensures
        table_of_lines(ls.remove(i)) == table_of_lines(ls),
    decreases ls.len(),
{
    if i == ls.len() - 1 {
        assert(ls.remove(i) =~= ls.drop_last());
    } else {
        let init = ls.drop_last();
        lemma_recordless_line_ignored(init, i);
        assert(ls.remove(i).drop_last() =~= init.remove(i));
        assert(ls.remove(i).last() == ls.last());
    }
}

/// A line with fewer than two comma-separated fields neither creates nor
/// changes an entry: the table is the one that the other lines build.
pub proof fn lemma_short_line_ignored(ls: Seq<Seq<char>>, i: int)
    requires
        0 <= i < ls.len(),
        split_on(ls[i], SEPARATOR).len() < 2,
    ensures
        table_of_lines(ls.remove(i)) == table_of_lines(ls),
{
    lemma_recordless_line_ignored(ls, i);
}

/// A line whose second field is not an `i32` neither creates nor changes an
/// entry: the table is the one that the other lines build.
pub proof fn lemma_bad_score_ignored(ls: Seq<Seq<char>>, i: int)
    requires
        0 <= i < ls.len(),
        split_on(ls[i], SEPARATOR).len() >= 2,
        score_value(split_on(ls[i], SEPARATOR)[1]) is None,
    ensures
        table_of_lines(ls.remove(i)) == table_of_lines(ls),
{
    lemma_recordless_line_ignored(ls, i);
}

} // verus!
