//! Text as sequences of characters.
//!
//! Contracts over text speak of `Seq<char>`. This module holds the spec
//! functions that say what searching, splitting, trimming and formatting mean,
//! and the executable functions that are proved to do it.

use vstd::prelude::*;
use vstd::string::*;

verus! {

/// `String::push` appends one character.
pub assume_specification[ String::push ](s: &mut String, c: char)
    ensures
        final(s)@ == old(s)@.push(c),
;

/// The views of a sequence of strings.
pub open spec fn views(s: Seq<String>) -> Seq<Seq<char>> {
    Seq::new(s.len(), |i: int| s[i]@)
}

/// `p` stands in `s` at position `i`.
pub open spec fn occurs_at(p: Seq<char>, s: Seq<char>, i: int) -> bool {
    0 <= i && i + p.len() <= s.len() && s.subrange(i, i + p.len()) == p
}

/// `p` stands somewhere in `s`.
pub open spec fn occurs(p: Seq<char>, s: Seq<char>) -> bool {
    exists|i: int| occurs_at(p, s, i)
}

/// The position of the first `c` in `s`, or the length of `s` where there is none.
pub open spec fn first_of(s: Seq<char>, c: char) -> int
    decreases s.len(),
{
    if s.len() == 0 {
        0
    } else if s[0] == c {
        0
    } else {
        1 + first_of(s.skip(1), c)
    }
}

pub proof fn lemma_first_of(s: Seq<char>, c: char)
    ensures
        0 <= first_of(s, c) <= s.len(),
        first_of(s, c) < s.len() ==> s[first_of(s, c)] == c,
        forall|j: int| 0 <= j < first_of(s, c) ==> s[j] != c,
    decreases s.len(),
{
    if s.len() > 0 && s[0] != c {
        lemma_first_of(s.skip(1), c);
        assert forall|j: int| 0 <= j < first_of(s, c) implies s[j] != c by {
            if j > 0 {
                assert(s[j] == s.skip(1)[j - 1]);
            }
        }
    }
}

pub proof fn lemma_first_of_at(s: Seq<char>, c: char, n: int)
    requires
        0 <= n <= s.len(),
        forall|j: int| 0 <= j < n ==> s[j] != c,
        n < s.len() ==> s[n] == c,
    ensures
        first_of(s, c) == n,
{
    lemma_first_of(s, c);
}

/// The characters of a string.
pub fn chars_of(s: &str) -> (v: Vec<char>)
    ensures
        v@ == s@,
{
    let mut v: Vec<char> = Vec::new();
    for c in it: s.chars()
        invariant
            v@ == it.seq().take(it.index() as int),
            it.seq() == s@,
    {
        v.push(c);
    }
    v
}

/// The string of the characters `v[lo..hi]`.
pub fn string_of(v: &Vec<char>, lo: usize, hi: usize) -> (s: String)
    requires
        lo <= hi <= v@.len(),
    ensures
        s@ == v@.subrange(lo as int, hi as int),
{
    let mut s = String::new();
    let mut i: usize = lo;
    while i < hi
        invariant
            lo <= i <= hi <= v@.len(),
            s@ == v@.subrange(lo as int, i as int),
        decreases hi - i,
    {
        s.push(v[i]);
        i = i + 1;
    }
    s
}

/// Whether two texts are the same.
pub fn same(a: &str, b: &str) -> (r: bool)
    ensures
        r == (a@ == b@),
{
    let x = chars_of(a);
    let y = chars_of(b);
    if x.len() != y.len() {
        return false;
    }
    let mut i: usize = 0;
    while i < x.len()
        invariant
            i <= x@.len(),
            x@.len() == y@.len(),
            x@ == a@,
            y@ == b@,
            forall|j: int| 0 <= j < i ==> x@[j] == y@[j],
        decreases x@.len() - i,
    {
        if x[i] != y[i] {
            return false;
        }
        i = i + 1;
    }
    assert(x@ =~= y@);
    true
}

/// `v` holds `p` at position `at`.
fn matches_at(v: &Vec<char>, p: &Vec<char>, at: usize) -> (r: bool)
    ensures
        r == occurs_at(p@, v@, at as int),
{
    if p.len() > v.len() || at > v.len() - p.len() {
        return false;
    }
    let mut i: usize = 0;
    while i < p.len()
        invariant
            i <= p@.len(),
            at + p@.len() <= v.len(),
            forall|j: int| 0 <= j < i ==> v@[at + j] == p@[j],
        decreases p@.len() - i,
    {
        if v[at + i] != p[i] {
            assert(v@.subrange(at as int, at + p@.len())[i as int] != p@[i as int]);
            return false;
        }
        i = i + 1;
    }
    assert(v@.subrange(at as int, at + p@.len()) =~= p@);
    true
}

/// The first position at or after `from` where `p` stands in `v`.
pub fn find_from(v: &Vec<char>, p: &Vec<char>, from: usize) -> (r: Option<usize>)
    ensures
        match r {
            Some(i) => from <= i && occurs_at(p@, v@, i as int) && forall|j: int|
                from <= j < i ==> !occurs_at(p@, v@, j),
            None => forall|j: int| from <= j ==> !occurs_at(p@, v@, j),
        },
{
    if p.len() > v.len() {
        return None;
    }
    let mut i: usize = from;
    while i <= v.len() - p.len()
        invariant
            from <= i,
            p@.len() <= v@.len(),
            forall|j: int| from <= j < i ==> !occurs_at(p@, v@, j),
        decreases v@.len() + 1 - i,
    {
        if matches_at(v, p, i) {
            return Some(i);
        }
        assert(p@.len() > 0) by {
            if p@.len() == 0 {
                assert(v@.subrange(i as int, i as int) =~= p@);
            }
        }
        i = i + 1;
    }
    None
}

/// Whether `p` stands somewhere in `s`.
pub fn contains(s: &str, p: &str) -> (r: bool)
    ensures
        r == occurs(p@, s@),
{
    let v = chars_of(s);
    let q = chars_of(p);
    match find_from(&v, &q, 0) {
        Some(i) => {
            assert(occurs_at(p@, s@, i as int));
            true
        },
        None => {
            assert(forall|j: int| occurs_at(p@, s@, j) ==> 0 <= j);
            false
        },
    }
}

/// Whether `s` begins with `p`.
pub fn starts_with(s: &str, p: &str) -> (r: bool)
    ensures
        r == p@.is_prefix_of(s@),
{
    let v = chars_of(s);
    let q = chars_of(p);
    let r = matches_at(&v, &q, 0);
    r
}

/// What is left of `s` after the prefix `p`, where `s` begins with `p`.
pub open spec fn after_prefix(s: Seq<char>, p: Seq<char>) -> Option<Seq<char>> {
    if p.is_prefix_of(s) {
        Some(s.skip(p.len() as int))
    } else {
        None
    }
}

/// Takes the prefix `p` off `s`.
pub fn strip_prefix(s: &str, p: &str) -> (r: Option<String>)
    ensures
        match r {
            Some(t) => after_prefix(s@, p@) == Some(t@),
            None => after_prefix(s@, p@) is None,
        },
{
    if starts_with(s, p) {
        let v = chars_of(s);
        let n: usize = chars_of(p).len();
        let t = string_of(&v, n, v.len());
        assert(v@.subrange(n as int, v@.len() as int) =~= s@.skip(p@.len() as int));
        Some(t)
    } else {
        None
    }
}

/// The position of the first `c` in `v` at or after `from`, else the length of `v`.
pub fn position_of(v: &Vec<char>, c: char, from: usize) -> (r: usize)
    requires
        from <= v@.len(),
    ensures
        from <= r <= v@.len(),
        r == from + first_of(v@.skip(from as int), c),
{
    let mut i: usize = from;
    while i < v.len() && v[i] != c
        invariant
            from <= i <= v@.len(),
            forall|j: int| from <= j < i ==> v@[j] != c,
        decreases v@.len() - i,
    {
        i = i + 1;
    }
    proof {
        let t = v@.skip(from as int);
        assert forall|j: int| 0 <= j < i - from implies t[j] != c by {
            assert(t[j] == v@[from + j]);
        }
        if i < v@.len() {
            assert(t[i - from] == v@[i as int]);
        }
        lemma_first_of_at(t, c, i - from);
    }
    i
}

/// The pieces of `s` between the separators `c`. There is always at least one.
pub open spec fn pieces(s: Seq<char>, c: char) -> Seq<Seq<char>>
    decreases s.len(),
{
    let n = first_of(s, c);
    if 0 <= n < s.len() {
        seq![s.take(n)] + pieces(s.skip(n + 1), c)
    } else {
        seq![s]
    }
}

/// Splits `s` at every `c`.
pub fn split(s: &str, c: char) -> (r: Vec<String>)
    ensures
        views(r@) == pieces(s@, c),
{
    let v = chars_of(s);
    let mut out: Vec<String> = Vec::new();
    let mut pos: usize = 0;
    assert(v@.skip(0) =~= v@);
    assert(views(out@) + pieces(v@.skip(0), c) =~= pieces(s@, c));
    loop
        invariant_except_break
            pos <= v@.len(),
            v@ == s@,
            views(out@) + pieces(v@.skip(pos as int), c) == pieces(s@, c),
        ensures
            views(out@) == pieces(s@, c),
        decreases v@.len() - pos,
    {
        let at = position_of(&v, c, pos);
        let piece = string_of(&v, pos, at);
        let ghost before = out@;
        let ghost rest = v@.skip(pos as int);
        proof {
            assert(piece@ =~= rest.take(at - pos));
        }
        out.push(piece);
        assert(views(out@) =~= views(before).push(rest.take(at - pos)));
        if at == v.len() {
            assert(rest.take(at - pos) =~= rest);
            assert(pieces(rest, c) =~= seq![rest]);
            assert(views(out@) =~= views(before) + seq![rest]);
            break;
        }
        assert(rest.skip(at - pos + 1) =~= v@.skip(at + 1));
        assert(views(out@) + pieces(v@.skip(at + 1), c) =~= views(before) + (seq![
            rest.take(at - pos),
        ] + pieces(v@.skip(at + 1), c)));
        pos = at + 1;
    }
    out
}

/// At most `n` pieces of `s`: the last one holds what is left, separators and all.
pub open spec fn pieces_at_most(s: Seq<char>, c: char, n: nat) -> Seq<Seq<char>>
    decreases n,
{
    let at = first_of(s, c);
    if n <= 1 || !(0 <= at < s.len()) {
        seq![s]
    } else {
        seq![s.take(at)] + pieces_at_most(s.skip(at + 1), c, (n - 1) as nat)
    }
}

/// Splits `s` at the first separators into at most `n` pieces.
pub fn split_at_most(s: &str, c: char, n: usize) -> (r: Vec<String>)
    requires
        n >= 1,
    ensures
        views(r@) == pieces_at_most(s@, c, n as nat),
{
    let v = chars_of(s);
    let mut out: Vec<String> = Vec::new();
    let mut pos: usize = 0;
    let mut left: usize = n;
    assert(v@.skip(0) =~= v@);
    assert(views(out@) + pieces_at_most(v@.skip(0), c, n as nat) =~= pieces_at_most(
        s@,
        c,
        n as nat,
    ));
    loop
        invariant_except_break
            pos <= v@.len(),
            v@ == s@,
            left >= 1,
            views(out@) + pieces_at_most(v@.skip(pos as int), c, left as nat) == pieces_at_most(
                s@,
                c,
                n as nat,
            ),
        ensures
            views(out@) == pieces_at_most(s@, c, n as nat),
        decreases left,
    {
        let ghost before = out@;
        let ghost rest = v@.skip(pos as int);
        let at = position_of(&v, c, pos);
        if left == 1 || at == v.len() {
            let piece = string_of(&v, pos, v.len());
            assert(piece@ =~= rest);
            out.push(piece);
            assert(views(out@) =~= views(before) + seq![rest]);
            break;
        }
        let piece = string_of(&v, pos, at);
        assert(piece@ =~= rest.take(at - pos));
        out.push(piece);
        assert(views(out@) =~= views(before).push(rest.take(at - pos)));
        assert(rest.skip(at - pos + 1) =~= v@.skip(at + 1));
        assert(views(out@) + pieces_at_most(v@.skip(at + 1), c, (left - 1) as nat) =~= views(before)
            + (seq![rest.take(at - pos)] + pieces_at_most(
            v@.skip(at + 1),
            c,
            (left - 1) as nat,
        )));
        pos = at + 1;
        left = left - 1;
    }
    out
}

/// A line without the carriage return that stood before its line feed.
pub open spec fn chop_cr(s: Seq<char>) -> Seq<char> {
    if s.len() > 0 && s.last() == '\r' {
        s.drop_last()
    } else {
        s
    }
}

/// The lines of a text: each ends at a line feed, or at a carriage return and a
/// line feed, or at the end of the text. An empty last line does not count.
pub open spec fn lines_of(s: Seq<char>) -> Seq<Seq<char>>
    decreases s.len(),
{
    if s.len() == 0 {
        Seq::empty()
    } else {
        let n = first_of(s, '\n');
        if 0 <= n < s.len() {
            seq![chop_cr(s.take(n))] + lines_of(s.skip(n + 1))
        } else {
            seq![s]
        }
    }
}

/// The lines of `s`.
pub fn lines(s: &str) -> (r: Vec<String>)
    ensures
        views(r@) == lines_of(s@),
{
    let v = chars_of(s);
    let mut out: Vec<String> = Vec::new();
    let mut pos: usize = 0;
    assert(v@.skip(0) =~= v@);
    assert(views(out@) + lines_of(v@.skip(0)) =~= lines_of(s@));
    while pos < v.len()
        invariant
            pos <= v@.len(),
            v@ == s@,
            views(out@) + lines_of(v@.skip(pos as int)) == lines_of(s@),
        decreases v@.len() - pos,
    {
        let at = position_of(&v, '\n', pos);
        let ghost before = out@;
        let ghost rest = v@.skip(pos as int);
        if at == v.len() {
            let line = string_of(&v, pos, at);
            assert(line@ =~= rest);
            out.push(line);
            assert(views(out@) =~= views(before) + seq![rest]);
            assert(lines_of(rest) =~= seq![rest]);
            assert(v@.skip(at as int).len() == 0);
            assert(views(out@) + lines_of(v@.skip(at as int)) =~= views(out@));
            pos = at;
        } else {
            let end: usize = if at > pos && v[at - 1] == '\r' {
                at - 1
            } else {
                at
            };
            let line = string_of(&v, pos, end);
            proof {
                let full = rest.take(at - pos);
                assert(full =~= v@.subrange(pos as int, at as int));
                assert(line@ =~= chop_cr(full));
                assert(rest.skip(at - pos + 1) =~= v@.skip(at + 1));
            }
            out.push(line);
            assert(views(out@) =~= views(before).push(chop_cr(rest.take(at - pos))));
            assert(views(out@) + lines_of(v@.skip(at + 1)) =~= views(before) + (seq![
                chop_cr(rest.take(at - pos)),
            ] + lines_of(v@.skip(at + 1))));
            pos = at + 1;
        }
    }
    assert(v@.skip(pos as int).len() == 0);
    assert(views(out@) + lines_of(v@.skip(pos as int)) =~= views(out@));
    out
}

/// The characters with the Unicode property White_Space.
pub open spec fn white(c: char) -> bool {
    let n = c as u32;
    ||| 0x9 <= n <= 0xd
    ||| n == 0x20
    ||| n == 0x85
    ||| n == 0xa0
    ||| n == 0x1680
    ||| 0x2000 <= n <= 0x200a
    ||| n == 0x2028
    ||| n == 0x2029
    ||| n == 0x202f
    ||| n == 0x205f
    ||| n == 0x3000
}

/// Whether `c` is white space.
pub fn is_white(c: char) -> (r: bool)
    ensures
        r == white(c),
{
    let n: u32 = c as u32;
    (0x9 <= n && n <= 0xd) || n == 0x20 || n == 0x85 || n == 0xa0 || n == 0x1680 || (0x2000 <= n && n
        <= 0x200a) || n == 0x2028 || n == 0x2029 || n == 0x202f || n == 0x205f || n == 0x3000
}

/// `s` without the white space at its start.
pub open spec fn trimmed_start(s: Seq<char>) -> Seq<char>
    decreases s.len(),
{
    if s.len() > 0 && white(s[0]) {
        trimmed_start(s.skip(1))
    } else {
        s
    }
}

/// `s` without the white space at its end.
pub open spec fn trimmed_end(s: Seq<char>) -> Seq<char>
    decreases s.len(),
{
    if s.len() > 0 && white(s.last()) {
        trimmed_end(s.drop_last())
    } else {
        s
    }
}

/// `s` without the white space at either end.
pub open spec fn trimmed(s: Seq<char>) -> Seq<char> {
    trimmed_end(trimmed_start(s))
}

/// Trims white space off both ends of `s`.
pub fn trim(s: &str) -> (r: String)
    ensures
        r@ == trimmed(s@),
{
    let v = chars_of(s);
    let mut lo: usize = 0;
    assert(v@.skip(0) =~= s@);
    while lo < v.len() && is_white(v[lo])
        invariant
            lo <= v@.len(),
            v@ == s@,
            trimmed_start(s@) == trimmed_start(v@.skip(lo as int)),
        decreases v@.len() - lo,
    {
        assert(v@.skip(lo as int).skip(1) =~= v@.skip(lo + 1));
        lo = lo + 1;
    }
    let mut hi: usize = v.len();
    let ghost body = v@.skip(lo as int);
    assert(trimmed_start(s@) == body);
    assert(v@.subrange(lo as int, hi as int) =~= body);
    while hi > lo && is_white(v[hi - 1])
        invariant
            lo <= hi <= v@.len(),
            trimmed_end(body) == trimmed_end(v@.subrange(lo as int, hi as int)),
        decreases hi,
    {
        assert(v@.subrange(lo as int, hi as int).drop_last() =~= v@.subrange(lo as int, hi - 1));
        hi = hi - 1;
    }
    string_of(&v, lo, hi)
}

/// The texts of `list`, one after another, with `sep` between them.
pub open spec fn joined(list: Seq<Seq<char>>, sep: Seq<char>) -> Seq<char>
    decreases list.len(),
{
    if list.len() == 0 {
        Seq::empty()
    } else if list.len() == 1 {
        list[0]
    } else {
        joined(list.drop_last(), sep) + sep + list.last()
    }
}

/// Joins the texts `list[lo..hi]` with `sep`.
pub fn join_range(list: &Vec<String>, lo: usize, hi: usize, sep: &str) -> (r: String)
    requires
        lo <= hi <= list@.len(),
    ensures
        r@ == joined(views(list@).subrange(lo as int, hi as int), sep@),
{
    let mut out = String::new();
    let mut i: usize = lo;
    let ghost all = views(list@).subrange(lo as int, hi as int);
    assert(all.take(0) =~= Seq::empty());
    while i < hi
        invariant
            lo <= i <= hi <= list@.len(),
            all == views(list@).subrange(lo as int, hi as int),
            out@ == joined(all.take(i - lo), sep@),
        decreases hi - i,
    {
        let ghost next = all.take(i - lo + 1);
        assert(next.drop_last() =~= all.take(i - lo));
        assert(next.last() == list@[i as int]@);
        if i > lo {
            out.append(sep);
        }
        out.append(list[i].as_str());
        if i == lo {
            assert(out@ =~= list@[lo as int]@);
        }
        i = i + 1;
    }
    assert(all.take(i - lo) =~= all);
    out
}

/// Joins the texts of `list` with `sep`.
pub fn join(list: &Vec<String>, sep: &str) -> (r: String)
    ensures
        r@ == joined(views(list@), sep@),
{
    let r = join_range(list, 0, list.len(), sep);
    assert(views(list@).subrange(0, list@.len() as int) =~= views(list@));
    r
}

/// The decimal digit of `d`.
pub open spec fn digit(d: int) -> char {
    (d + 48) as char
}

/// `n` in decimal.
pub open spec fn decimal(n: nat) -> Seq<char>
    decreases n,
{
    if n < 10 {
        seq![digit(n as int)]
    } else {
        decimal(n / 10).push(digit((n % 10) as int))
    }
}

/// Appends `n` in decimal to `s`.
pub fn push_decimal(s: &mut String, n: u64)
    ensures
        final(s)@ == old(s)@ + decimal(n as nat),
    decreases n,
{
    if n >= 10 {
        push_decimal(s, n / 10);
    }
    let d: u8 = (n % 10) as u8;
    let c: char = (d + 48u8) as char;
    s.push(c);
    assert(s@ =~= old(s)@ + decimal(n as nat));
}

/// The text of `a` followed by that of `b`.
pub fn cat(a: &str, b: &str) -> (r: String)
    ensures
        r@ == a@ + b@,
{
    let mut s = a.to_string();
    s.append(b);
    s
}

/// The text of `a`, `b` and `c`, one after another.
pub fn cat3(a: &str, b: &str, c: &str) -> (r: String)
    ensures
        r@ == a@ + b@ + c@,
{
    let mut s = a.to_string();
    s.append(b);
    s.append(c);
    s
}

/// The value of `s` read as decimal digits after `acc`.
pub open spec fn digits_value(s: Seq<char>) -> Option<nat>
    decreases s.len(),
{
    if s.len() == 0 {
        Some(0)
    } else {
        let d = (s.last() as u32) - 48;
        match digits_value(s.drop_last()) {
            Some(v) if 0 <= d <= 9 => Some((v * 10 + d) as nat),
            _ => None,
        }
    }
}

/// What reading `s` as an unsigned number of at most `max` gives: digits, with a
/// plus sign before them or none, and nothing else.
pub open spec fn number_in(s: Seq<char>, max: nat) -> Option<nat> {
    let digits = if s.len() > 0 && s[0] == '+' {
        s.skip(1)
    } else {
        s
    };
    if digits.len() == 0 {
        None
    } else {
        match digits_value(digits) {
            Some(v) if v <= max => Some(v),
            _ => None,
        }
    }
}

proof fn lemma_digits_prefix(s: Seq<char>, n: int)
    requires
        0 <= n <= s.len(),
    ensures
        digits_value(s.take(n)) is None ==> digits_value(s) is None,
        digits_value(s) is Some ==> digits_value(s.take(n)) is Some && digits_value(s.take(n))->0
            <= digits_value(s)->0,
    decreases s.len() - n,
{
    if n < s.len() {
        lemma_digits_prefix(s, n + 1);
        assert(s.take(n + 1).drop_last() =~= s.take(n));
    } else {
        assert(s.take(n) =~= s);
    }
}

/// A number in decimal is made of digits, and reads back as the number.
pub proof fn decimals_read_back(n: nat)
    ensures
        decimal(n).len() > 0,
        forall|i: int| 0 <= i < decimal(n).len() ==> 48 <= (#[trigger] decimal(n)[i]) as u32 <= 57,
        digits_value(decimal(n)) == Some(n),
    decreases n,
{
    let d = decimal(n);
    if n < 10 {
        assert(d.drop_last() =~= Seq::<char>::empty());
        assert(digits_value(d.drop_last()) == Some(0nat));
    } else {
        decimals_read_back(n / 10);
        assert(d.drop_last() =~= decimal(n / 10));
        assert forall|i: int| 0 <= i < d.len() implies 48 <= (#[trigger] d[i]) as u32 <= 57 by {
            if i < d.len() - 1 {
                assert(d[i] == decimal(n / 10)[i]);
            }
        }
    }
}

/// Reads an unsigned number of at most `max`.
pub fn parse_number(s: &str, max: u64) -> (r: Option<u64>)
    ensures
        match r {
            Some(n) => number_in(s@, max as nat) == Some(n as nat),
            None => number_in(s@, max as nat) is None,
        },
{
    let v = chars_of(s);
    let start: usize = if v.len() > 0 && v[0] == '+' {
        1
    } else {
        0
    };
    let ghost digits = v@.skip(start as int);
    assert(start == 0 ==> digits =~= s@);
    if start == v.len() {
        return None;
    }
    let mut acc: u64 = 0;
    let mut i: usize = start;
    assert(digits.take(0) =~= Seq::empty());
    while i < v.len()
        invariant
            start <= i <= v@.len(),
            digits == v@.skip(start as int),
            digits.len() > 0,
            number_in(s@, max as nat) == (match digits_value(digits) {
                Some(v) if v <= max => Some(v),
                _ => None,
            }),
            digits_value(digits.take(i - start)) == Some(acc as nat),
            acc <= max,
        decreases v@.len() - i,
    {
        let ch: char = v[i];
        let c: u32 = ch as u32;
        let ghost next = digits.take(i - start + 1);
        proof {
            assert(next.drop_last() =~= digits.take(i - start));
            assert(next.last() == v@[i as int]);
            lemma_digits_prefix(digits, i - start + 1);
        }
        if c < 48 || c > 57 {
            return None;
        }
        let d: u64 = (c - 48) as u64;
        if acc > (u64::MAX - d) / 10 {
            assert(acc * 10 + d > u64::MAX);
            return None;
        }
        let ghost sofar = acc as nat;
        acc = acc * 10 + d;
        assert((next.last() as u32) - 48 == d);
        assert(digits_value(next.drop_last()) == Some(sofar));
        assert(digits_value(next) == Some(acc as nat));
        if acc > max {
            return None;
        }
        i = i + 1;
    }
    assert(digits.take(i - start) =~= digits);
    Some(acc)
}

/// What reading `s` as a signed number of 64 bits gives: digits, with a sign
/// before them or none, and nothing else.
pub open spec fn signed_in(s: Seq<char>) -> Option<int> {
    if s.len() > 0 && s[0] == '-' {
        let digits = s.skip(1);
        if digits.len() == 0 {
            None
        } else {
            match digits_value(digits) {
                Some(v) if v <= 0x8000_0000_0000_0000 => Some(-(v as int)),
                _ => None,
            }
        }
    } else {
        match number_in(s, i64::MAX as nat) {
            Some(v) => Some(v as int),
            None => None,
        }
    }
}

/// Reads a signed number of 64 bits.
pub fn parse_signed(s: &str) -> (r: Option<i64>)
    ensures
        match r {
            Some(n) => signed_in(s@) == Some(n as int),
            None => signed_in(s@) is None,
        },
{
    let v = chars_of(s);
    if v.len() > 0 && v[0] == '-' {
        let rest = string_of(&v, 1, v.len());
        assert(rest@ =~= s@.skip(1));
        if v.len() == 1 || v[1] == '+' {
            proof {
                if v@.len() > 1 {
                    assert(rest@[0] == '+');
                    lemma_digits_prefix(rest@, 1);
                    assert(rest@.take(1).drop_last() =~= Seq::<char>::empty());
                    assert(rest@.take(1).last() == '+');
                }
            }
            return None;
        }
        assert(rest@[0] == v@[1]);
        match parse_number(rest.as_str(), 0x8000_0000_0000_0000) {
            Some(n) => if n == 0x8000_0000_0000_0000 {
                Some(i64::MIN)
            } else {
                Some(-(n as i64))
            },
            None => None,
        }
    } else {
        match parse_number(s, i64::MAX as u64) {
            Some(n) => Some(n as i64),
            None => None,
        }
    }
}

/// What `String::from_utf8_lossy` makes of bytes.
pub uninterp spec fn utf8_lossy(bytes: Seq<u8>) -> Seq<char>;

/// `String::from_utf8_lossy`: the text depends on the bytes alone, and where the
/// bytes are UTF-8 it is the text that they encode. What stands in place of bytes
/// that are not UTF-8 is left to the name.
#[verifier::external_body]
pub(crate) fn from_utf8_lossy(bytes: &[u8]) -> (r: String)
    ensures
        r@ == utf8_lossy(bytes@),
        vstd::utf8::valid_utf8(bytes@) ==> r@ == vstd::utf8::decode_utf8(bytes@),
{
    String::from_utf8_lossy(bytes).into_owned()
}

/// What `str::to_lowercase` makes of a text.
pub uninterp spec fn lowercased(s: Seq<char>) -> Seq<char>;

/// `str::to_lowercase`: the result depends on the text alone.
#[verifier::external_body]
pub(crate) fn to_lowercase(s: &str) -> (r: String)
    ensures
        r@ == lowercased(s@),
{
    s.to_lowercase()
}

/// A text without white space at its ends.
pub open spec fn tight(s: Seq<char>) -> bool {
    s.len() > 0 ==> !white(s[0]) && !white(s.last())
}

/// Trimming leaves alone what has no white space at its ends.
pub proof fn tight_texts_stay(s: Seq<char>)
    requires
        tight(s),
    ensures
        trimmed(s) == s,
{
}

/// Two lines with a line feed between them are the two lines.
pub proof fn lines_are_split_at_line_feeds(a: Seq<char>, b: Seq<char>)
    requires
        !a.contains('\n'),
        !b.contains('\n'),
        a.len() > 0 ==> a.last() != '\r',
        b.len() > 0,
    ensures
        lines_of(a + seq!['\n'] + b) == seq![a, b],
{
    let s = a + seq!['\n'] + b;
    let n = a.len() as int;
    assert forall|j: int| 0 <= j < n implies s[j] != '\n' by {
        assert(s[j] == a[j]);
        assert(a.contains(a[j]));
    }
    lemma_first_of_at(s, '\n', n);
    assert(s.take(n) =~= a);
    assert(s.skip(n + 1) =~= b);
    assert forall|j: int| 0 <= j < b.len() implies b[j] != '\n' by {
        assert(b.contains(b[j]));
    }
    lemma_first_of_at(b, '\n', b.len() as int);
    assert(lines_of(b) == seq![b]);
    assert(lines_of(s) =~= seq![a, b]);
}

proof fn lemma_trimmed_start(s: Seq<char>)
    ensures
        ({
            let t = trimmed_start(s);
            let n = s.len() - t.len();
            &&& 0 <= n
            &&& s.skip(n) == t
            &&& forall|i: int| 0 <= i < n ==> white(#[trigger] s[i])
            &&& t.len() > 0 ==> !white(t[0])
        }),
    decreases s.len(),
{
    if s.len() > 0 && white(s[0]) {
        let rest = s.skip(1);
        lemma_trimmed_start(rest);
        let t = trimmed_start(s);
        let n = s.len() - t.len();
        assert(s.skip(n) =~= rest.skip(n - 1));
        assert forall|i: int| 0 <= i < n implies white(#[trigger] s[i]) by {
            if i > 0 {
                assert(s[i] == rest[i - 1]);
            }
        }
    } else {
        assert(s.skip(0) =~= s);
    }
}

proof fn lemma_trimmed_end(s: Seq<char>)
    ensures
        ({
            let t = trimmed_end(s);
            &&& t.len() <= s.len()
            &&& s.take(t.len() as int) == t
            &&& forall|i: int| t.len() <= i < s.len() ==> white(#[trigger] s[i])
            &&& t.len() > 0 ==> !white(t.last())
        }),
    decreases s.len(),
{
    if s.len() > 0 && white(s.last()) {
        let rest = s.drop_last();
        lemma_trimmed_end(rest);
        let t = trimmed_end(s);
        assert(s.take(t.len() as int) =~= rest.take(t.len() as int));
        assert forall|i: int| t.len() <= i < s.len() implies white(#[trigger] s[i]) by {
            if i < rest.len() {
                assert(s[i] == rest[i]);
            }
        }
    } else {
        assert(s.take(s.len() as int) =~= s);
    }
}

/// Trimming takes white space off both ends and nothing else: what is left is tight, and
/// what stood before and behind it is white.
pub proof fn trimming_takes_off_white_space(s: Seq<char>) -> (n: int)
    ensures
        0 <= n,
        n + trimmed(s).len() <= s.len(),
        s.subrange(n, n + trimmed(s).len()) == trimmed(s),
        forall|i: int| 0 <= i < n ==> white(#[trigger] s[i]),
        forall|i: int| n + trimmed(s).len() <= i < s.len() ==> white(#[trigger] s[i]),
        tight(trimmed(s)),
{
    lemma_trimmed_start(s);
    let t = trimmed_start(s);
    lemma_trimmed_end(t);
    let n = s.len() - t.len();
    let r = trimmed(s);
    assert(s.subrange(n, n + r.len()) =~= t.take(r.len() as int)) by {
        assert(s.skip(n) == t);
        assert forall|i: int| 0 <= i < r.len() implies s[n + i] == t[i] by {
            assert(s.skip(n)[i] == s[n + i]);
        }
    }
    assert forall|i: int| n + r.len() <= i < s.len() implies white(#[trigger] s[i]) by {
        assert(s.skip(n)[i - n] == s[i]);
        assert(white(t[i - n]));
    }
    if r.len() > 0 {
        assert(t.take(r.len() as int)[0] == t[0]);
    }
    n
}

/// The usual white space is white, and what is printed is not.
pub proof fn blanks_are_white()
    ensures
        white(' ') && white('\t') && white('\n') && white('\r'),
        forall|c: char| 0x21 <= (c as u32) <= 0x7e ==> !#[trigger] white(c),
{
}

/// Texts are joined in their order, with the separator between any two.
pub proof fn texts_are_joined_in_order(a: Seq<Seq<char>>, b: Seq<Seq<char>>, sep: Seq<char>)
    ensures
        joined(Seq::empty(), sep) == Seq::<char>::empty(),
        a.len() == 1 ==> joined(a, sep) == a[0],
        a.len() > 0 && b.len() > 0 ==> joined(a + b, sep) == joined(a, sep) + sep + joined(b, sep),
    decreases b.len(),
{
    if a.len() > 0 && b.len() > 0 {
        assert((a + b).drop_last() =~= a + b.drop_last());
        if b.len() == 1 {
            assert(a + b.drop_last() =~= a);
        } else {
            texts_are_joined_in_order(a, b.drop_last(), sep);
            assert(joined(a, sep) + sep + joined(b.drop_last(), sep) + sep + b.last() =~= joined(
                a,
                sep,
            ) + sep + (joined(b.drop_last(), sep) + sep + b.last()));
        }
    }
}

proof fn lemma_pieces_first(a: Seq<char>, b: Seq<char>, c: char)
    requires
        !a.contains(c),
    ensures
        pieces(a, c) == seq![a],
        pieces(a + seq![c] + b, c) == seq![a] + pieces(b, c),
{
    let s = a + seq![c] + b;
    let n = a.len() as int;
    assert forall|j: int| 0 <= j < n implies s[j] != c && a[j] != c by {
        assert(s[j] == a[j]);
        assert(a.contains(a[j]));
    }
    lemma_first_of_at(s, c, n);
    lemma_first_of_at(a, c, n);
    assert(s.take(n) =~= a);
    assert(s.skip(n + 1) =~= b);
}

/// A text is split at every separator: texts without it that are joined by it come apart
/// again.
pub proof fn joined_texts_come_apart(list: Seq<Seq<char>>, c: char)
    requires
        list.len() > 0,
        forall|i: int| 0 <= i < list.len() ==> !(#[trigger] list[i]).contains(c),
    ensures
        pieces(joined(list, seq![c]), c) == list,
    decreases list.len(),
{
    let first = list[0];
    if list.len() == 1 {
        lemma_pieces_first(first, Seq::empty(), c);
        assert(seq![first] =~= list);
    } else {
        let rest = list.skip(1);
        assert forall|i: int| 0 <= i < rest.len() implies !(#[trigger] rest[i]).contains(c) by {
            assert(rest[i] == list[i + 1]);
        }
        joined_texts_come_apart(rest, c);
        assert(seq![first] + rest =~= list);
        texts_are_joined_in_order(seq![first], rest, seq![c]);
        lemma_pieces_first(first, joined(rest, seq![c]), c);
    }
}

/// The pieces of a text have no separator in them, and joined by it they are the text.
pub proof fn pieces_join_to_the_text(s: Seq<char>, c: char)
    ensures
        pieces(s, c).len() > 0,
        joined(pieces(s, c), seq![c]) == s,
        forall|i: int| 0 <= i < pieces(s, c).len() ==> !(#[trigger] pieces(s, c)[i]).contains(c),
    decreases s.len(),
{
    lemma_first_of(s, c);
    let n = first_of(s, c);
    let p = pieces(s, c);
    if n < s.len() {
        let rest = s.skip(n + 1);
        pieces_join_to_the_text(rest, c);
        texts_are_joined_in_order(seq![s.take(n)], pieces(rest, c), seq![c]);
        assert(s =~= s.take(n) + seq![c] + rest);
        assert forall|i: int| 0 <= i < p.len() implies !(#[trigger] p[i]).contains(c) by {
            if i == 0 {
                assert forall|j: int| 0 <= j < n implies s.take(n)[j] != c by {}
            } else {
                assert(p[i] == pieces(rest, c)[i - 1]);
            }
        }
    } else {
        assert(joined(seq![s], seq![c]) == s);
    }
}

/// A number that is written in decimal is read back, where it fits, and with a sign before
/// it as the negative number.
pub proof fn numbers_are_read_as_they_are_written(n: nat, max: nat)
    ensures
        n <= max ==> number_in(decimal(n), max) == Some(n),
        n > max ==> number_in(decimal(n), max) is None,
        n <= i64::MAX ==> signed_in(decimal(n)) == Some(n as int),
        n <= 0x8000_0000_0000_0000 ==> signed_in(seq!['-'] + decimal(n)) == Some(-(n as int)),
{
    decimals_read_back(n);
    let d = decimal(n);
    assert(48 <= d[0] as u32 <= 57);
    assert((seq!['-'] + d).skip(1) =~= d);
}

/// A text is split at the first separators; behind them what is left stays whole.
pub proof fn the_last_piece_stays_whole(a: Seq<char>, b: Seq<char>, c: char, n: nat)
    requires
        !a.contains(c),
    ensures
        n >= 2 ==> pieces_at_most(a + seq![c] + b, c, n) == seq![a] + pieces_at_most(
            b,
            c,
            (n - 1) as nat,
        ),
        pieces_at_most(b, c, 1) == seq![b],
        n >= 1 ==> pieces_at_most(a, c, n) == seq![a],
{
    let s = a + seq![c] + b;
    let k = a.len() as int;
    assert forall|j: int| 0 <= j < k implies s[j] != c && a[j] != c by {
        assert(s[j] == a[j]);
        assert(a.contains(a[j]));
    }
    lemma_first_of_at(s, c, k);
    lemma_first_of_at(a, c, k);
    assert(s.take(k) =~= a);
    assert(s.skip(k + 1) =~= b);
}

} // verus!
