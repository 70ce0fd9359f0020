//! Text as sequences of characters: conversion to and from `String`,
//! splitting on a separator, blank lines, and decimal numerals.

use vstd::prelude::*;

verus! {

broadcast use vstd::string::group_string_axioms;

/// `String::push` appends one character at the end of the string
/// (std documentation: "Appends the given char to the end of this String").
pub assume_specification[ String::push ](s: &mut String, ch: char)
    ensures
        final(s)@ == old(s)@.push(ch),
;

/// The characters of `s`, in order.
pub fn chars_of(s: &str) -> (v: Vec<char>)
    ensures
        v@ == s@,
{
    let mut v: Vec<char> = Vec::new();
    for c in it: s.chars()
        invariant
            v@ == it.seq().take(it.index()),
    {
        v.push(c);
    }
    v
}

/// A `String` holding the characters of `v`, in order.
pub fn string_of(v: &Vec<char>) -> (s: String)
    ensures
        s@ == v@,
{
    let mut s = String::new();
    for i in 0..v.len()
        invariant
            s@ == v@.take(i as int),
    {
        s.push(v[i]);
        assert(v@.take(i + 1) == v@.take(i as int).push(v@[i as int]));
    }
    assert(v@.take(v.len() as int) == v@);
    s
}

/// Appends the characters of `v` to `out`.
pub fn push_chars(out: &mut Vec<char>, v: &Vec<char>)
    ensures
        final(out)@ == old(out)@ + v@,
{
    let ghost start = out@;
    for i in 0..v.len()
        invariant
            out@ == start + v@.take(i as int),
    {
        out.push(v[i]);
        assert(v@.take(i + 1) == v@.take(i as int).push(v@[i as int]));
    }
    assert(v@.take(v.len() as int) == v@);
}

/// Appends the characters of `s` to `out`.
pub fn push_str(out: &mut Vec<char>, s: &str)
    ensures
        final(out)@ == old(out)@ + s@,
{
    let v = chars_of(s);
    push_chars(out, &v);
}

/// A copy of `v`.
pub fn copy_chars(v: &Vec<char>) -> (c: Vec<char>)
    ensures
        c@ == v@,
{
    let mut c: Vec<char> = Vec::new();
    push_chars(&mut c, v);
    c
}

/// Whether `a` and `b` hold the same characters.
pub fn same_text(a: &Vec<char>, b: &Vec<char>) -> (r: bool)
    ensures
        r == (a@ == b@),
{
    if a.len() != b.len() {
        return false;
    }
    for i in 0..a.len()
        invariant
            a.len() == b.len(),
            forall|j: int| 0 <= j < i ==> a@[j] == b@[j],
    {
        if a[i] != b[i] {
            return false;
        }
    }
    assert(a@ =~= b@);
    true
}

/// Whether `v` holds the character `c`.
pub fn has_char(v: &Vec<char>, c: char) -> (r: bool)
    ensures
        r == v@.contains(c),
{
    for i in 0..v.len()
        invariant
            forall|j: int| 0 <= j < i ==> v@[j] != c,
    {
        if v[i] == c {
            assert(v@[i as int] == c);
            return true;
        }
    }
    false
}

/// `sep` occurs in `s` at position `i`.
pub open spec fn occurs_at(s: Seq<char>, sep: Seq<char>, i: int) -> bool {
    0 <= i && i + sep.len() <= s.len() && s.subrange(i, i + sep.len()) == sep
}

/// The pieces of `s` between the occurrences of `sep`, the occurrences found
/// from the left without overlap, the search starting at position `i`.
pub open spec fn split_from(s: Seq<char>, sep: Seq<char>, i: nat) -> Seq<Seq<char>>
    decreases s.len(), s.len() - i,
{
    if sep.len() == 0 || i + sep.len() > s.len() {
        seq![s]
    } else if s.subrange(i as int, (i + sep.len()) as int) == sep {
        seq![s.take(i as int)] + split_from(s.skip((i + sep.len()) as int), sep, 0)
    } else {
        split_from(s, sep, i + 1)
    }
}

/// `s` split at each occurrence of the separator `sep`, as `str::split`
/// does with a non-empty pattern.
pub open spec fn split_text(s: Seq<char>, sep: Seq<char>) -> Seq<Seq<char>> {
    split_from(s, sep, 0)
}

/// Whether `sep` occurs in `s` at position `i`.
fn occurs(s: &Vec<char>, sep: &Vec<char>, i: usize) -> (r: bool)
    requires
        i + sep@.len() <= s@.len(),
    ensures
        r == (s@.subrange(i as int, i + sep@.len()) == sep@),
{
    let mut j: usize = 0;
    while j < sep.len()
        invariant
            i + sep.len() <= s.len(),
            j <= sep.len(),
            forall|k: int| 0 <= k < j ==> s@[i + k] == sep@[k],
        decreases sep@.len() - j,
    {
        if s[i + j] != sep[j] {
            assert(s@.subrange(i as int, i + sep@.len())[j as int] != sep@[j as int]);
            return false;
        }
        j = j + 1;
    }
    assert(s@.subrange(i as int, i + sep@.len()) =~= sep@);
    true
}

/// The characters of `s` from position `from` up to (not including) `to`.
pub fn slice_chars(s: &Vec<char>, from: usize, to: usize) -> (r: Vec<char>)
    requires
        from <= to <= s@.len(),
    ensures
        r@ == s@.subrange(from as int, to as int),
{
    let mut r: Vec<char> = Vec::new();
    for k in from..to
        invariant
            to <= s@.len(),
            r@ == s@.subrange(from as int, k as int),
    {
        r.push(s[k]);
        assert(s@.subrange(from as int, k + 1) == s@.subrange(from as int, k as int).push(s@[k as int]));
    }
    r
}

/// The one-character text `c`.
pub fn one_char(c: char) -> (v: Vec<char>)
    ensures
        v@ == seq![c],
{
    let mut v: Vec<char> = Vec::new();
    v.push(c);
    assert(v@ =~= seq![c]);
    v
}

/// A split yields at least one piece.
pub proof fn lemma_split_nonempty(s: Seq<char>, sep: Seq<char>, i: nat)
    ensures
        split_from(s, sep, i).len() >= 1,
    decreases s.len(), s.len() - i,
{
    if sep.len() == 0 || i + sep.len() > s.len() {
    } else if s.subrange(i as int, (i + sep.len()) as int) == sep {
        lemma_split_nonempty(s.skip((i + sep.len()) as int), sep, 0);
    } else {
        lemma_split_nonempty(s, sep, i + 1);
    }
}

/// The scan from `i` finds the separator character first at `k`.
pub proof fn lemma_split_scan(s: Seq<char>, c: char, k: int, i: nat)
    requires
        i <= k < s.len(),
        s[k] == c,
        forall|j: int| i <= j < k ==> s[j] != c,
    ensures
        split_from(s, seq![c], i) == seq![s.take(k)] + split_from(s.skip(k + 1), seq![c], 0),
    decreases k - i,
{
    let sep = seq![c];
    if i < k {
        assert(s.subrange(i as int, i + 1int) != sep) by {
            assert(s.subrange(i as int, i + 1int)[0] == s[i as int]);
        }
        lemma_split_scan(s, c, k, i + 1);
    } else {
        assert(s.subrange(i as int, i + 1int) =~= sep);
    }
}

/// A scan from `i` that meets no separator character yields the whole text.
pub proof fn lemma_split_none(s: Seq<char>, c: char, i: nat)
    requires
        i <= s.len(),
        forall|j: int| i <= j < s.len() ==> s[j] != c,
    ensures
        split_from(s, seq![c], i) == seq![s],
    decreases s.len() - i,
{
    let sep = seq![c];
    if i + 1 <= s.len() {
        assert(s.subrange(i as int, i + 1int) != sep) by {
            assert(s.subrange(i as int, i + 1int)[0] == s[i as int]);
        }
        lemma_split_none(s, c, i + 1);
    }
}

/// A text without the separator character is one piece.
pub proof fn lemma_split_plain(s: Seq<char>, c: char)
    requires
        !s.contains(c),
    ensures
        split_text(s, seq![c]) == seq![s],
{
    assert forall|j: int| 0 <= j < s.len() implies s[j] != c by {
        if s[j] == c {
            assert(s.contains(c));
        }
    }
    lemma_split_none(s, c, 0);
}

/// The first position of `c` in `x`.
pub proof fn first_index(x: Seq<char>, c: char) -> (k: int)
    requires
        x.contains(c),
    ensures
        0 <= k < x.len(),
        x[k] == c,
        forall|j: int| 0 <= j < k ==> x[j] != c,
    decreases x.len(),
{
    if x[0] == c {
        0
    } else {
        let t = x.drop_first();
        let w = choose|w: int| 0 <= w < x.len() && x[w] == c;
        assert(t[w - 1] == c);
        let k = first_index(t, c);
        assert forall|j: int| 0 <= j < k + 1 implies x[j] != c by {
            if j > 0 {
                assert(x[j] == t[j - 1]);
            }
        }
        k + 1
    }
}

/// Splitting at a single character cuts at every occurrence: the pieces of
/// `x + c + y` are those of `x` followed by those of `y`.
pub proof fn lemma_split_join(x: Seq<char>, y: Seq<char>, c: char)
    ensures
        split_text(x + seq![c] + y, seq![c]) == split_text(x, seq![c]) + split_text(y, seq![c]),
    decreases x.len(),
{
    let s = x + seq![c] + y;
    if x.contains(c) {
        let k = first_index(x, c);
        lemma_split_scan(s, c, k, 0);
        lemma_split_scan(x, c, k, 0);
        let x2 = x.skip(k + 1);
        lemma_split_join(x2, y, c);
        assert(s.take(k) =~= x.take(k));
        assert(s.skip(k + 1) =~= x2 + seq![c] + y);
        assert(split_text(s, seq![c]) =~= split_text(x, seq![c]) + split_text(y, seq![c]));
    } else {
        assert forall|j: int| 0 <= j < x.len() implies s[j] != c by {
            if s[j] == c {
                assert(x[j] == c);
                assert(x.contains(c));
            }
        }
        lemma_split_scan(s, c, x.len() as int, 0);
        lemma_split_plain(x, c);
        assert(s.take(x.len() as int) =~= x);
        assert(s.skip(x.len() + 1int) =~= y);
    }
}

/// Text without the separator character, appended, extends the last piece.
pub proof fn lemma_split_extend(x: Seq<char>, y: Seq<char>, c: char)
    requires
        !y.contains(c),
    ensures
        split_text(x + y, seq![c]) == split_text(x, seq![c]).drop_last().push(
            split_text(x, seq![c]).last() + y,
        ),
    decreases x.len(),
{
    lemma_split_nonempty(x, seq![c], 0);
    if x.contains(c) {
        let k = first_index(x, c);
        let x1 = x.take(k);
        let x2 = x.skip(k + 1);
        assert(x =~= x1 + seq![c] + x2);
        assert(x + y =~= x1 + seq![c] + (x2 + y));
        lemma_split_join(x1, x2, c);
        lemma_split_join(x1, x2 + y, c);
        lemma_split_extend(x2, y, c);
        lemma_split_nonempty(x2, seq![c], 0);
        let a = split_text(x1, seq![c]);
        let b = split_text(x2, seq![c]);
        assert((a + b).drop_last() =~= a + b.drop_last());
        assert((a + b).last() == b.last());
        assert(a + b.drop_last().push(b.last() + y) =~= (a + b.drop_last()).push(b.last() + y));
    } else {
        lemma_split_plain(x, c);
        assert forall|j: int| 0 <= j < (x + y).len() implies (x + y)[j] != c by {
            if j < x.len() {
                if x[j] == c {
                    assert(x.contains(c));
                }
            } else {
                if y[j - x.len()] == c {
                    assert(y.contains(c));
                }
            }
        }
        lemma_split_none(x + y, c, 0);
        assert(seq![x].drop_last().push(x + y) =~= seq![x + y]);
    }
}

/// The scan from `i` finds the separator `sep` first at `k`.
pub proof fn lemma_split_first(s: Seq<char>, sep: Seq<char>, k: int, i: nat)
    requires
        sep.len() > 0,
        i <= k,
        occurs_at(s, sep, k),
        forall|j: int| i <= j < k ==> !occurs_at(s, sep, j),
    ensures
        split_from(s, sep, i) == seq![s.take(k)] + split_from(
            s.skip(k + sep.len()),
            sep,
            0,
        ),
    decreases k - i,
{
    if i < k {
        assert(!occurs_at(s, sep, i as int));
        lemma_split_first(s, sep, k, i + 1);
    }
}

/// A text without `\r`, then `\r\n`, then more: its lines are that text
/// followed by the lines of the rest.
pub proof fn lemma_crlf_step(x: Seq<char>, y: Seq<char>)
    requires
        !x.contains('\r'),
    ensures
        split_text(x + "\r\n"@ + y, "\r\n"@) == seq![x] + split_text(y, "\r\n"@),
{
    reveal_strlit("\r\n");
    let sep = "\r\n"@;
    let s = x + sep + y;
    let k = x.len() as int;
    assert(s.subrange(k, k + 2) =~= sep);
    assert forall|j: int| 0 <= j < k implies !occurs_at(s, sep, j) by {
        if occurs_at(s, sep, j) {
            assert(s.subrange(j, j + 2)[0] == s[j]);
            assert(x[j] == '\r');
            assert(x.contains('\r'));
        }
    }
    lemma_split_first(s, sep, k, 0);
    assert(s.take(k) =~= x);
    assert(s.skip(k + 2) =~= y);
}

/// Every character of a decimal numeral is a digit.
pub proof fn lemma_decimal_digits(n: nat)
    ensures
        forall|i: int| 0 <= i < decimal(n).len() ==> '0' <= #[trigger] decimal(n)[i] <= '9',
    decreases n,
{
    lemma_digit(n);
    if n >= 10 {
        lemma_decimal_digits(n / 10);
        lemma_digit(n % 10);
        let d = decimal(n / 10);
        assert forall|i: int| 0 <= i < decimal(n).len() implies '0' <= #[trigger] decimal(n)[i]
            <= '9' by {
            if i < d.len() {
                assert(decimal(n)[i] == d[i]);
            }
        }
    }
}

/// A digit character is a digit.
proof fn lemma_digit(d: nat)
    ensures
        '0' <= digit_char(d) <= '9',
{
    let x = (d % 10) + 48;
    assert(48 <= x <= 57);
    assert(x as char as int == x);
}

/// A scan from `i` that meets no occurrence of `sep` yields the whole text.
pub proof fn lemma_split_absent(s: Seq<char>, sep: Seq<char>, i: nat)
    requires
        sep.len() > 0,
        forall|j: int| i <= j ==> !occurs_at(s, sep, j),
    ensures
        split_from(s, sep, i) == seq![s],
    decreases s.len() - i,
{
    if i + sep.len() <= s.len() {
        assert(!occurs_at(s, sep, i as int));
        lemma_split_absent(s, sep, i + 1);
    }
}

/// The views of a sequence of character vectors.
pub open spec fn texts(v: Seq<Vec<char>>) -> Seq<Seq<char>> {
    v.map_values(|p: Vec<char>| p@)
}

/// `s` split at each occurrence of `sep`.
pub fn split(s: &Vec<char>, sep: &Vec<char>) -> (parts: Vec<Vec<char>>)
    requires
        sep@.len() > 0,
    ensures
        texts(parts@) == split_text(s@, sep@),
        parts@.len() >= 1,
{
    proof {
        lemma_split_nonempty(s@, sep@, 0);
    }
    let mut parts: Vec<Vec<char>> = Vec::new();
    let mut start: usize = 0;
    let mut i: usize = 0;
    assert(s@.skip(0) =~= s@);
    assert(texts(parts@) =~= Seq::<Seq<char>>::empty());
    while sep.len() <= s.len() - i
        invariant
            sep@.len() > 0,
            start <= i <= s@.len(),
            split_text(s@, sep@) == texts(parts@) + split_from(
                s@.skip(start as int),
                sep@,
                (i - start) as nat,
            ),
        decreases s@.len() - i,
    {
        let ghost t = s@.skip(start as int);
        let ghost j = (i - start) as nat;
        if occurs(s, sep, i) {
            let piece = slice_chars(s, start, i);
            assert(t.subrange(j as int, (j + sep@.len()) as int) =~= s@.subrange(i as int, i + sep@.len()));
            assert(t.take(j as int) =~= piece@);
            assert(t.skip((j + sep@.len()) as int) =~= s@.skip(i + sep@.len()));
            let ghost before = texts(parts@);
            parts.push(piece);
            assert(texts(parts@) =~= before.push(piece@));
            start = i + sep.len();
            i = start;
            assert(split_text(s@, sep@) =~= texts(parts@) + split_from(
                s@.skip(start as int),
                sep@,
                0,
            ));
        } else {
            assert(t.subrange(j as int, (j + sep@.len()) as int) =~= s@.subrange(i as int, i + sep@.len()));
            i = i + 1;
        }
    }
    let ghost before = texts(parts@);
    let last = slice_chars(s, start, s.len());
    assert(s@.skip(start as int) =~= last@);
    parts.push(last);
    assert(texts(parts@) =~= before.push(last@));
    assert(split_text(s@, sep@) =~= texts(parts@));
    parts
}

/// The characters for which `char::is_whitespace` holds: the Unicode
/// `White_Space` property.
pub open spec fn is_white_space(c: char) -> bool {
    let n = c as u32;
    ||| n == 0x20
    ||| 0x09 <= n <= 0x0d
    ||| n == 0x85
    ||| n == 0xa0
    ||| n == 0x1680
    ||| 0x2000 <= n <= 0x200a
    ||| n == 0x2028
    ||| n == 0x2029
    ||| n == 0x202f
    ||| n == 0x205f
    ||| n == 0x3000
}

/// `char::is_whitespace`.
pub fn white_space(c: char) -> (r: bool)
    ensures
        r == is_white_space(c),
{
    let n = c as u32;
    n == 0x20 || (0x09 <= n && n <= 0x0d) || n == 0x85 || n == 0xa0 || n == 0x1680 || (0x2000
        <= n && n <= 0x200a) || n == 0x2028 || n == 0x2029 || n == 0x202f || n == 0x205f || n
        == 0x3000
}

/// `s` holds white space only (so `s.trim()` is empty).
pub open spec fn is_blank(s: Seq<char>) -> bool {
    forall|i: int| 0 <= i < s.len() ==> is_white_space(#[trigger] s[i])
}

/// Whether `s` holds white space only.
pub fn blank(s: &Vec<char>) -> (r: bool)
    ensures
        r == is_blank(s@),
{
    for i in 0..s.len()
        invariant
            forall|j: int| 0 <= j < i ==> is_white_space(#[trigger] s@[j]),
    {
        if !white_space(s[i]) {
            return false;
        }
    }
    true
}

/// The lines that are not blank, in order.
pub open spec fn non_blank(lines: Seq<Seq<char>>) -> Seq<Seq<char>>
    decreases lines.len(),
{
    if lines.len() == 0 {
        Seq::empty()
    } else if is_blank(lines.last()) {
        non_blank(lines.drop_last())
    } else {
        non_blank(lines.drop_last()).push(lines.last())
    }
}

/// The non-blank lines of two runs of lines are those of each, in order.
pub proof fn lemma_non_blank_concat(x: Seq<Seq<char>>, y: Seq<Seq<char>>)
    ensures
        non_blank(x + y) == non_blank(x) + non_blank(y),
    decreases y.len(),
{
    if y.len() == 0 {
        assert(x + y =~= x);
        assert(non_blank(x) + Seq::<Seq<char>>::empty() =~= non_blank(x));
    } else {
        lemma_non_blank_concat(x, y.drop_last());
        assert((x + y).drop_last() =~= x + y.drop_last());
        assert((x + y).last() == y.last());
        if !is_blank(y.last()) {
            assert(non_blank(x) + non_blank(y.drop_last()).push(y.last()) =~= (non_blank(x)
                + non_blank(y.drop_last())).push(y.last()));
        }
    }
}

/// The lines of `lines` that are not blank, in order.
pub fn keep_non_blank(lines: &Vec<Vec<char>>) -> (kept: Vec<Vec<char>>)
    ensures
        texts(kept@) == non_blank(texts(lines@)),
{
    let mut kept: Vec<Vec<char>> = Vec::new();
    let ghost all = texts(lines@);
    assert(texts(kept@) =~= non_blank(all.take(0)));
    for i in 0..lines.len()
        invariant
            all == texts(lines@),
            texts(kept@) == non_blank(all.take(i as int)),
    {
        assert(all.take(i + 1).drop_last() =~= all.take(i as int));
        if !blank(&lines[i]) {
            let line = copy_chars(&lines[i]);
            let ghost before = texts(kept@);
            kept.push(line);
            assert(texts(kept@) =~= before.push(all[i as int]));
        }
    }
    assert(all.take(lines.len() as int) =~= all);
    kept
}

/// The decimal digit for `d % 10`.
pub open spec fn digit_char(d: nat) -> char {
    ((d % 10) + 48) as char
}

/// The decimal numeral of `n`, without leading zeros.
pub open spec fn decimal(n: nat) -> Seq<char>
    decreases n,
{
    if n < 10 {
        seq![digit_char(n)]
    } else {
        decimal(n / 10).push(digit_char(n % 10))
    }
}

/// Appends the decimal numeral of `n` to `out`.
pub fn push_decimal(out: &mut Vec<char>, n: u64)
    ensures
        final(out)@ == old(out)@ + decimal(n as nat),
    decreases n,
{
    if n >= 10 {
        push_decimal(out, n / 10);
    }
    let d: u8 = (n % 10) as u8;
    let c = (d + 48) as char;
    assert(c == digit_char(n as nat));
    out.push(c);
}

} // verus!
