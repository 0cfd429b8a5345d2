//! Text as sequences of characters: trimming, searching, splitting into lines
//! and writing numbers.
use vstd::prelude::*;

verus! {

/// `String::push` appends the given character to the end of the text.
pub assume_specification[ String::push ](s: &mut String, c: char)
    ensures
        final(s)@ == old(s)@.push(c),
;

/// The characters of `s`, in order.
pub fn to_chars(s: &str) -> (r: Vec<char>)
    ensures
        r@ == s@,
{
    let mut out: Vec<char> = Vec::new();
    for c in it: s.chars()
        invariant
            it.seq() == s@,
            out@ == s@.take(it.index() as int),
    {
        out.push(c);
        assert(s@.take(it.index() as int + 1) =~= s@.take(it.index() as int).push(c));
    }
    assert(s@.take(s@.len() as int) =~= s@);
    out
}

/// The text made of the characters from `from` up to, not including, `to`.
pub fn substring(chars: &Vec<char>, from: usize, to: usize) -> (r: String)
    requires
        from <= to <= chars@.len(),
    ensures
        r@ == chars@.subrange(from as int, to as int),
{
    let mut out = String::new();
    let mut i: usize = from;
    while i < to
        invariant
            from <= i <= to <= chars@.len(),
            out@ == chars@.subrange(from as int, i as int),
        decreases to - i,
    {
        out.push(chars[i]);
        i = i + 1;
        assert(out@ =~= chars@.subrange(from as int, i as int));
    }
    out
}

/// Whether two texts consist of the same characters.
pub fn same_text(a: &str, b: &str) -> (r: bool)
    ensures
        r == (a@ == b@),
{
    let x = to_chars(a);
    let y = to_chars(b);
    if x.len() != y.len() {
        return false;
    }
    let mut i: usize = 0;
    while i < x.len()
        invariant
            x@ == a@,
            y@ == b@,
            x@.len() == y@.len(),
            i <= x@.len(),
            forall|j: int| 0 <= j < i ==> x@[j] == y@[j],
        decreases x.len() - i,
    {
        if x[i] != y[i] {
            return false;
        }
        i = i + 1;
    }
    assert(a@ =~= b@);
    true
}

/// Whether two optional texts are both absent, or present and the same.
pub fn same_optional_text(a: &Option<String>, b: &Option<String>) -> (r: bool)
    ensures
        r == (optional_text(*a) == optional_text(*b)),
{
    match (a, b) {
        (Some(x), Some(y)) => same_text(x.as_str(), y.as_str()),
        (None, None) => true,
        _ => false,
    }
}

/// The characters of an optional text.
pub open spec fn optional_text(t: Option<String>) -> Option<Seq<char>> {
    match t {
        Some(s) => Some(s@),
        None => None,
    }
}

/// A copy of an optional text.
pub(crate) fn copy_text(t: &Option<String>) -> (r: Option<String>)
    ensures
        r == *t,
{
    match t {
        Some(s) => Some(s.clone()),
        None => None,
    }
}

/// The characters of each text of a list.
pub open spec fn texts(v: Seq<String>) -> Seq<Seq<char>> {
    v.map_values(|s: String| s@)
}

/// The Unicode property `White_Space`.
pub open spec fn is_space(c: char) -> bool {
    ||| '\u{9}' <= c <= '\u{d}'
    ||| c == ' '
    ||| c == '\u{85}'
    ||| c == '\u{a0}'
    ||| c == '\u{1680}'
    ||| '\u{2000}' <= c <= '\u{200a}'
    ||| c == '\u{2028}'
    ||| c == '\u{2029}'
    ||| c == '\u{202f}'
    ||| c == '\u{205f}'
    ||| c == '\u{3000}'
}

/// Whether `c` is white space.
pub fn space(c: char) -> (r: bool)
    ensures
        r == is_space(c),
{
    ('\u{9}' <= c && c <= '\u{d}') || c == ' ' || c == '\u{85}' || c == '\u{a0}' || c == '\u{1680}'
        || ('\u{2000}' <= c && c <= '\u{200a}') || c == '\u{2028}' || c == '\u{2029}' || c
        == '\u{202f}' || c == '\u{205f}' || c == '\u{3000}'
}

/// `s` without its leading white space.
pub open spec fn trim_start(s: Seq<char>) -> Seq<char>
    decreases s.len(),
{
    if s.len() > 0 && is_space(s[0]) {
        trim_start(s.drop_first())
    } else {
        s
    }
}

/// `s` without its trailing white space.
pub open spec fn trim_end(s: Seq<char>) -> Seq<char>
    decreases s.len(),
{
    if s.len() > 0 && is_space(s.last()) {
        trim_end(s.drop_last())
    } else {
        s
    }
}

/// `s` without the white space around it.
pub open spec fn trim(s: Seq<char>) -> Seq<char> {
    trim_end(trim_start(s))
}

/// Where the trimmed text lies within the characters from `from` up to `to`.
pub fn trim_range(chars: &Vec<char>, from: usize, to: usize) -> (r: (usize, usize))
    requires
        from <= to <= chars@.len(),
    ensures
        from <= r.0 <= r.1 <= to,
        chars@.subrange(r.0 as int, r.1 as int) == trim(chars@.subrange(from as int, to as int)),
{
    let mut a: usize = from;
    while a < to && space(chars[a])
        invariant
            from <= a <= to <= chars@.len(),
            trim_start(chars@.subrange(a as int, to as int)) == trim_start(
                chars@.subrange(from as int, to as int),
            ),
        decreases to - a,
    {
        assert(chars@.subrange(a as int, to as int).drop_first() =~= chars@.subrange(
            a as int + 1,
            to as int,
        ));
        a = a + 1;
    }
    let b: usize = trim_end_index(chars, a, to);
    (a, b)
}

/// Where the text from `from` up to `to` ends once its trailing white space is gone.
pub fn trim_end_index(chars: &Vec<char>, from: usize, to: usize) -> (r: usize)
    requires
        from <= to <= chars@.len(),
    ensures
        from <= r <= to,
        chars@.subrange(from as int, r as int) == trim_end(
            chars@.subrange(from as int, to as int),
        ),
{
    let mut b: usize = to;
    while b > from && space(chars[b - 1])
        invariant
            from <= b <= to <= chars@.len(),
            trim_end(chars@.subrange(from as int, b as int)) == trim_end(
                chars@.subrange(from as int, to as int),
            ),
        decreases b - from,
    {
        assert(chars@.subrange(from as int, b as int).drop_last() =~= chars@.subrange(
            from as int,
            b as int - 1,
        ));
        b = b - 1;
    }
    b
}

/// A line of output as it is kept: without trailing white space.
pub fn trimmed_end(s: &str) -> (r: String)
    ensures
        r@ == trim_end(s@),
{
    let chars = to_chars(s);
    let end = trim_end_index(&chars, 0, chars.len());
    assert(chars@.subrange(0, chars@.len() as int) =~= s@);
    substring(&chars, 0, end)
}

/// `s` without the white space around it.
pub fn trimmed(s: &str) -> (r: String)
    ensures
        r@ == trim(s@),
{
    let chars = to_chars(s);
    let (a, b) = trim_range(&chars, 0, chars.len());
    assert(chars@.subrange(0, chars@.len() as int) =~= s@);
    substring(&chars, a, b)
}

/// The position of the first `c` in `s`, or the length of `s` where there is none.
pub open spec fn first_at(s: Seq<char>, c: char) -> int
    decreases s.len(),
{
    if s.len() == 0 || s[0] == c {
        0
    } else {
        1 + first_at(s.drop_first(), c)
    }
}

/// What `first_at` means: nothing before it is `c`, and it is `c` or the end.
pub proof fn lemma_first_at(s: Seq<char>, c: char)
    ensures
        0 <= first_at(s, c) <= s.len(),
        first_at(s, c) < s.len() ==> s[first_at(s, c)] == c,
        forall|j: int| 0 <= j < first_at(s, c) ==> s[j] != c,
    decreases s.len(),
{
    if s.len() == 0 || s[0] == c {
    } else {
        lemma_first_at(s.drop_first(), c);
        assert forall|j: int| 0 <= j < first_at(s, c) implies s[j] != c by {
            if j > 0 {
                assert(s.drop_first()[j - 1] == s[j]);
            }
        }
    }
}

/// A position with nothing equal to `c` before it, that holds `c` or is the end, is `first_at`.
pub proof fn lemma_first_at_is(s: Seq<char>, c: char, i: int)
    requires
        0 <= i <= s.len(),
        i < s.len() ==> s[i] == c,
        forall|j: int| 0 <= j < i ==> s[j] != c,
    ensures
        first_at(s, c) == i,
{
    lemma_first_at(s, c);
}

/// The position of the first `c` from `from` on, or `to` where there is none before it.
pub fn find_char(chars: &Vec<char>, from: usize, to: usize, c: char) -> (r: usize)
    requires
        from <= to <= chars@.len(),
    ensures
        from <= r <= to,
        r - from == first_at(chars@.subrange(from as int, to as int), c),
        r < to ==> chars@[r as int] == c,
{
    let ghost s = chars@.subrange(from as int, to as int);
    let mut i: usize = from;
    while i < to && chars[i] != c
        invariant
            from <= i <= to <= chars@.len(),
            s == chars@.subrange(from as int, to as int),
            forall|j: int| 0 <= j < i - from ==> s[j] != c,
        decreases to - i,
    {
        i = i + 1;
    }
    proof {
        lemma_first_at_is(s, c, i - from);
    }
    i
}

/// The lines of `s`: the pieces that a line feed ends, each without a carriage
/// return directly before the line feed, and what follows the last line feed,
/// unless that is empty.
pub open spec fn lines(s: Seq<char>) -> Seq<Seq<char>>
    decreases s.len(),
{
    let n = first_at(s, '\n');
    if s.len() == 0 {
        Seq::empty()
    } else if n < 0 || n >= s.len() {
        seq![s]
    } else {
        seq![without_cr(s.take(n))] + lines(s.skip(n + 1))
    }
}

/// `s` without one carriage return at its end.
pub open spec fn without_cr(s: Seq<char>) -> Seq<char> {
    if s.len() > 0 && s.last() == '\r' {
        s.drop_last()
    } else {
        s
    }
}

/// The pieces of `chars` that a list of ranges cuts out.
pub open spec fn pieces(chars: Seq<char>, ranges: Seq<(usize, usize)>) -> Seq<Seq<char>> {
    ranges.map_values(|r: (usize, usize)| chars.subrange(r.0 as int, r.1 as int))
}

/// Where each line of the text lies.
pub fn line_ranges(chars: &Vec<char>) -> (r: Vec<(usize, usize)>)
    ensures
        forall|i: int| 0 <= i < r@.len() ==> (#[trigger] r@[i]).0 <= r@[i].1 <= chars@.len(),
        pieces(chars@, r@) == lines(chars@),
{
    let mut out: Vec<(usize, usize)> = Vec::new();
    let mut start: usize = 0;
    let total: usize = chars.len();
    assert(chars@.skip(0) =~= chars@);
    assert(pieces(chars@, out@) + lines(chars@) =~= lines(chars@));
    while start < total
        invariant
            start <= total,
            total == chars@.len(),
            forall|i: int|
                0 <= i < out@.len() ==> (#[trigger] out@[i]).0 <= out@[i].1 <= chars@.len(),
            pieces(chars@, out@) + lines(chars@.skip(start as int)) == lines(chars@),
        decreases total - start,
    {
        let ghost before = out@;
        let ghost rest = chars@.skip(start as int);
        let n = find_char(chars, start, total, '\n');
        assert(rest =~= chars@.subrange(start as int, total as int));
        if n == total {
            out.push((start, total));
            proof {
                lemma_first_at(rest, '\n');
                assert(pieces(chars@, out@) =~= pieces(chars@, before).push(rest));
                assert(lines(rest) =~= seq![rest]);
                assert(pieces(chars@, before) + lines(rest) =~= pieces(chars@, out@));
                assert(chars@.skip(total as int).len() == 0);
                assert(lines(chars@.skip(total as int)) =~= Seq::<Seq<char>>::empty());
                assert(pieces(chars@, out@) + Seq::<Seq<char>>::empty() =~= pieces(chars@, out@));
            }
            start = total;
        } else {
            let end: usize = if n > start && chars[n - 1] == '\r' {
                n - 1
            } else {
                n
            };
            out.push((start, end));
            proof {
                assert(rest.take(n - start) =~= chars@.subrange(start as int, n as int));
                assert(without_cr(rest.take(n - start)) =~= chars@.subrange(
                    start as int,
                    end as int,
                ));
                assert(rest.skip(n - start + 1) =~= chars@.skip(n as int + 1));
                assert(pieces(chars@, out@) =~= pieces(chars@, before).push(
                    chars@.subrange(start as int, end as int),
                ));
                assert(pieces(chars@, before) + lines(rest) =~= pieces(chars@, out@) + lines(
                    chars@.skip(n as int + 1),
                ));
            }
            start = n + 1;
        }
    }
    proof {
        assert(chars@.skip(start as int).len() == 0);
        assert(pieces(chars@, out@) + Seq::<Seq<char>>::empty() =~= pieces(chars@, out@));
    }
    out
}

/// The number `n` in decimal notation, without leading zeros.
pub open spec fn decimal(n: nat) -> Seq<char>
    decreases n,
{
    if n < 10 {
        seq![digit(n)]
    } else {
        decimal(n / 10).push(digit(n % 10))
    }
}

/// The decimal digit for a number below ten.
pub open spec fn digit(d: nat) -> char {
    (48 + d) as char
}

/// Decimal notation consists of digits.
pub proof fn lemma_decimal(n: nat)
    ensures
        decimal(n).len() > 0,
        forall|i: int| 0 <= i < decimal(n).len() ==> '0' <= #[trigger] decimal(n)[i] <= '9',
    decreases n,
{
    if n >= 10 {
        lemma_decimal(n / 10);
        assert forall|i: int| 0 <= i < decimal(n).len() implies '0' <= #[trigger] decimal(n)[i]
            <= '9' by {
            if i < decimal(n / 10).len() {
                assert(decimal(n)[i] == decimal(n / 10)[i]);
            }
        }
    }
}

/// Different numbers differ in decimal notation.
pub proof fn lemma_decimal_injective(a: nat, b: nat)
    requires
        decimal(a) == decimal(b),
    ensures
        a == b,
    decreases a,
{
    lemma_decimal(a / 10);
    lemma_decimal(b / 10);
    assert(decimal(a).last() == digit(a % 10));
    assert(decimal(b).last() == digit(b % 10));
    if a >= 10 && b >= 10 {
        assert(decimal(a).drop_last() =~= decimal(a / 10));
        assert(decimal(b).drop_last() =~= decimal(b / 10));
        lemma_decimal_injective(a / 10, b / 10);
    }
}

/// Writes `n` in decimal notation.
pub fn decimal_u64(n: u64) -> (r: String)
    ensures
        r@ == decimal(n as nat),
    decreases n,
{
    if n < 10 {
        let mut out = String::new();
        out.push((48 + n as u8) as char);
        assert(out@ =~= decimal(n as nat));
        out
    } else {
        let mut out = decimal_u64(n / 10);
        out.push((48 + (n % 10) as u8) as char);
        out
    }
}

/// The number `n` in decimal notation, behind a minus sign where it is negative.
pub open spec fn signed_decimal(n: int) -> Seq<char> {
    if n < 0 {
        seq!['-'] + decimal((-n) as nat)
    } else {
        decimal(n as nat)
    }
}

/// Writes `n` in decimal notation, behind a minus sign where it is negative.
pub fn decimal_i64(n: i64) -> (r: String)
    ensures
        r@ == signed_decimal(n as int),
{
    if n >= 0 {
        return decimal_u64(n as u64);
    }
    let magnitude: u64 = if n == i64::MIN {
        0x8000_0000_0000_0000
    } else {
        (-n) as u64
    };
    let mut out = String::new();
    out.push('-');
    let digits = decimal_u64(magnitude);
    out.append(digits.as_str());
    assert(out@ =~= seq!['-'] + decimal((-(n as int)) as nat));
    out
}

/// `count` times the character `c`.
pub open spec fn repeated(c: char, count: nat) -> Seq<char> {
    Seq::new(count, |i: int| c)
}

/// `s` filled up with blanks on the right to at least `width` characters.
pub open spec fn padded(s: Seq<char>, width: nat) -> Seq<char> {
    if s.len() >= width {
        s
    } else {
        s + repeated(' ', (width - s.len()) as nat)
    }
}

/// `count` times the character `c`.
pub fn repeat_char(c: char, count: usize) -> (r: String)
    ensures
        r@ == repeated(c, count as nat),
{
    let mut out = String::new();
    let mut i: usize = 0;
    while i < count
        invariant
            i <= count,
            out@ == repeated(c, i as nat),
        decreases count - i,
    {
        out.push(c);
        i = i + 1;
        assert(out@ =~= repeated(c, i as nat));
    }
    assert(out@ =~= repeated(c, count as nat));
    out
}

/// `s` filled up with blanks on the right to at least `width` characters.
pub fn pad_right(s: &str, width: usize) -> (r: String)
    ensures
        r@ == padded(s@, width as nat),
{
    let n = to_chars(s).len();
    let mut out = s.to_owned();
    if n < width {
        let fill = repeat_char(' ', width - n);
        out.append(fill.as_str());
    }
    out
}

/// Two texts in a row.
pub(crate) fn concat2(a: &str, b: &str) -> (r: String)
    ensures
        r@ == a@ + b@,
{
    let mut out = a.to_owned();
    out.append(b);
    out
}

/// Three texts in a row.
pub(crate) fn concat3(a: &str, b: &str, c: &str) -> (r: String)
    ensures
        r@ == a@ + b@ + c@,
{
    let mut out = concat2(a, b);
    out.append(c);
    out
}

/// Four texts in a row.
pub(crate) fn concat4(a: &str, b: &str, c: &str, d: &str) -> (r: String)
    ensures
        r@ == a@ + b@ + c@ + d@,
{
    let mut out = concat3(a, b, c);
    out.append(d);
    out
}

/// The texts of `list`, one after the other, with `separator` between each two.
pub open spec fn joined(list: Seq<Seq<char>>, separator: Seq<char>) -> Seq<char>
    decreases list.len(),
{
    if list.len() == 0 {
        Seq::empty()
    } else if list.len() == 1 {
        list[0]
    } else {
        list[0] + separator + joined(list.drop_first(), separator)
    }
}

/// Of the characters that are printed in ASCII none is white space; the blank,
/// the tabulators, the line feed, the form feed and the carriage return are.
pub proof fn law_space(c: char)
    ensures
        '!' <= c <= '~' ==> !is_space(c),
        c == ' ' || c == '\t' || c == '\n' || c == '\r' ==> is_space(c),
{
}

/// Whether a text consists of white space.
pub open spec fn blank(s: Seq<char>) -> bool {
    forall|i: int| 0 <= i < s.len() ==> is_space(#[trigger] s[i])
}

/// Whether a text has no white space at its ends.
pub open spec fn tight(s: Seq<char>) -> bool {
    s.len() > 0 ==> !is_space(s[0]) && !is_space(s.last())
}

/// White space before a text is cut off.
proof fn lemma_trim_start(p: Seq<char>, s: Seq<char>)
    requires
        blank(p),
        s.len() == 0 || !is_space(s[0]),
    ensures
        trim_start(p + s) == s,
    decreases p.len(),
{
    if p.len() > 0 {
        assert((p + s)[0] == p[0]);
        assert((p + s).drop_first() =~= p.drop_first() + s);
        lemma_trim_start(p.drop_first(), s);
    } else {
        assert(p + s =~= s);
    }
}

/// White space behind a text is cut off.
proof fn lemma_trim_end(s: Seq<char>, q: Seq<char>)
    requires
        blank(q),
        s.len() == 0 || !is_space(s.last()),
    ensures
        trim_end(s + q) == s,
    decreases q.len(),
{
    if q.len() > 0 {
        assert((s + q).last() == q.last());
        assert((s + q).drop_last() =~= s + q.drop_last());
        lemma_trim_end(s, q.drop_last());
    } else {
        assert(s + q =~= s);
    }
}

/// Trimming cuts off the white space around a text, and nothing else.
pub proof fn law_trim(p: Seq<char>, s: Seq<char>, q: Seq<char>)
    requires
        blank(p),
        tight(s),
        blank(q),
    ensures
        trim(p + s + q) == s,
        s.len() > 0 ==> trim_end(p + s + q) == p + s,
{
    assert(p + s + q =~= p + (s + q));
    if s.len() > 0 {
        lemma_trim_start(p, s + q);
        lemma_trim_end(s, q);
        lemma_trim_end(p + s, q);
    } else {
        assert(p + s + q =~= p + q);
        assert forall|i: int| 0 <= i < (p + q).len() implies is_space(#[trigger] (p + q)[i]) by {
            if i < p.len() {
                assert((p + q)[i] == p[i]);
            } else {
                assert((p + q)[i] == q[i - p.len()]);
            }
        }
        assert(p + q + s =~= p + q);
        lemma_trim_start(p + q, s);
        assert(s =~= Seq::<char>::empty());
    }
}

/// A line feed ends a line, with or without a carriage return before it, and
/// what follows consists of the lines that it would consist of alone; a text without
/// a line feed is one line, unless it is empty.
pub proof fn law_lines(line: Seq<char>, rest: Seq<char>)
    requires
        !line.contains('\n'),
    ensures
        line.len() > 0 ==> lines(line) == seq![line],
        lines(Seq::<char>::empty()) == Seq::<Seq<char>>::empty(),
        line.len() == 0 || line.last() != '\r' ==> lines(line + seq!['\n'] + rest) == seq![line]
            + lines(rest),
        lines(line + seq!['\r', '\n'] + rest) == seq![line] + lines(rest),
{
    assert forall|j: int| 0 <= j < line.len() implies line[j] != '\n' by {
        assert(line.contains(line[j]));
    }
    lemma_first_at_is(line, '\n', line.len() as int);
    let lf = line + seq!['\n'] + rest;
    lemma_first_at_is(lf, '\n', line.len() as int);
    assert(lf.take(line.len() as int) =~= line);
    assert(lf.skip(line.len() as int + 1) =~= rest);
    let crlf = line + seq!['\r', '\n'] + rest;
    assert(crlf[line.len() as int] == '\r');
    lemma_first_at_is(crlf, '\n', line.len() as int + 1);
    assert(crlf.take(line.len() as int + 1) =~= line.push('\r'));
    assert(line.push('\r').drop_last() =~= line);
    assert(crlf.skip(line.len() as int + 2) =~= rest);
}

/// One more digit behind a number makes it ten times as large, and more by the
/// digit; a number below ten is a digit.
pub proof fn law_decimal(n: nat, d: nat)
    requires
        d < 10,
    ensures
        decimal(d) == seq![('0' as u32 + d) as char],
        n > 0 ==> decimal(10 * n + d) == decimal(n).push(('0' as u32 + d) as char),
{
    assert((10 * n + d) / 10 == n);
    assert((10 * n + d) % 10 == d);
}

/// A negative number is written as the positive one behind a minus sign.
pub proof fn law_signed_decimal(n: nat)
    ensures
        signed_decimal(n as int) == decimal(n),
        n > 0 ==> signed_decimal(-(n as int)) == seq!['-'] + decimal(n),
{
}

/// Filling a text up keeps it, and adds blanks just where it is too short.
pub proof fn law_padded(s: Seq<char>, width: nat)
    ensures
        padded(s, width).len() == (if s.len() < width {
            width
        } else {
            s.len()
        }),
        padded(s, width).take(s.len() as int) == s,
        forall|i: int| s.len() <= i < padded(s, width).len() ==> padded(s, width)[i] == ' ',
{
    assert(padded(s, width).take(s.len() as int) =~= s);
}

/// One more text is joined behind the others, with the separator before it.
pub proof fn law_joined(list: Seq<Seq<char>>, last: Seq<char>, separator: Seq<char>)
    ensures
        joined(list.push(last), separator) == (if list.len() == 0 {
            last
        } else {
            joined(list, separator) + separator + last
        }),
    decreases list.len(),
{
    let more = list.push(last);
    if list.len() > 0 {
        let rest = list.drop_first();
        law_joined(rest, last, separator);
        assert(more.drop_first() =~= rest.push(last));
        if list.len() > 1 {
            assert(joined(more, separator) =~= joined(list, separator) + separator + last);
        }
    }
}

/// Whether a text holds another as one piece.
pub open spec fn holds(s: Seq<char>, part: Seq<char>) -> bool {
    exists|i: int| 0 <= i <= s.len() - part.len() && #[trigger] s.subrange(i, i + part.len()) == part
}

/// A text made of three pieces holds the one in the middle.
pub proof fn lemma_holds(a: Seq<char>, part: Seq<char>, b: Seq<char>)
    ensures
        holds(a + part + b, part),
{
    let s = a + part + b;
    let i = a.len() as int;
    assert(s.subrange(i, i + part.len()) =~= part);
}

} // verus!
