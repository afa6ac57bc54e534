//! Text as sequences of characters: trimming, splitting, searching, joining and
//! the decimal form of numbers.

use vstd::prelude::*;

verus! {

broadcast use vstd::string::axiom_spec_iter;

/// `String::push`: the character is appended to the end of the string.
pub assume_specification[ String::push ](s: &mut String, c: char)
    ensures
        final(s)@ == old(s)@.push(c),
;

/// The views of a sequence of strings.
pub open spec fn texts(v: Seq<String>) -> Seq<Seq<char>> {
    v.map_values(|s: String| s@)
}

/// The view of an optional string.
pub open spec fn opt_text(o: Option<String>) -> Option<Seq<char>> {
    match o {
        Some(s) => Some(s@),
        None => None,
    }
}

/// The view of an optional string slice.
pub open spec fn opt_str(o: Option<&str>) -> Option<Seq<char>> {
    match o {
        Some(s) => Some(s@),
        None => None,
    }
}

/// Whether a character has the Unicode `White_Space` property.
pub open spec fn is_white(c: char) -> bool {
    ||| '\u{9}' <= c <= '\u{d}'
    ||| c == '\u{20}'
    ||| c == '\u{85}'
    ||| c == '\u{a0}'
    ||| c == '\u{1680}'
    ||| '\u{2000}' <= c <= '\u{200a}'
    ||| c == '\u{2028}'
    ||| c == '\u{2029}'
    ||| c == '\u{202f}'
    ||| c == '\u{205f}'
    ||| c == '\u{3000}'
}

/// The suffix that begins with the first character outside `p`.
pub open spec fn skip_while(s: Seq<char>, p: spec_fn(char) -> bool) -> Seq<char>
    decreases s.len(),
{
    if s.len() > 0 && p(s[0]) {
        skip_while(s.skip(1), p)
    } else {
        s
    }
}

/// The prefix that ends with the last character outside `p`.
pub open spec fn drop_tail_while(s: Seq<char>, p: spec_fn(char) -> bool) -> Seq<char>
    decreases s.len(),
{
    if s.len() > 0 && p(s.last()) {
        drop_tail_while(s.drop_last(), p)
    } else {
        s
    }
}

/// The whitespace characters.
pub open spec fn white() -> spec_fn(char) -> bool {
    |c: char| is_white(c)
}

/// The characters equal to `x`.
pub open spec fn only(x: char) -> spec_fn(char) -> bool {
    |c: char| c == x
}

/// `s` without whitespace at either end.
pub open spec fn trimmed(s: Seq<char>) -> Seq<char> {
    drop_tail_while(skip_while(s, white()), white())
}

/// The index of the first `c` in `s`, or the length of `s` where there is none.
pub open spec fn find(s: Seq<char>, c: char) -> int
    decreases s.len(),
{
    if s.len() == 0 || s[0] == c {
        0
    } else {
        1 + find(s.skip(1), c)
    }
}

/// The index of the last `c` in `s`, or -1 where there is none.
pub open spec fn rfind(s: Seq<char>, c: char) -> int
    decreases s.len(),
{
    if s.len() == 0 || s.last() == c {
        s.len() - 1
    } else {
        rfind(s.drop_last(), c)
    }
}

/// The pieces between the occurrences of `c`: one more than there are `c`s.
pub open spec fn pieces(s: Seq<char>, c: char) -> Seq<Seq<char>>
    decreases s.len(),
{
    let i = find(s, c);
    if 0 <= i < s.len() {
        seq![s.take(i)] + pieces(s.skip(i + 1), c)
    } else {
        seq![s]
    }
}

/// The two halves around the first `c`.
pub open spec fn halves(s: Seq<char>, c: char) -> Option<(Seq<char>, Seq<char>)> {
    let i = find(s, c);
    if i < s.len() {
        Some((s.take(i), s.skip(i + 1)))
    } else {
        None
    }
}

/// What follows the last `c`; all of `s` where there is none.
pub open spec fn after_last(s: Seq<char>, c: char) -> Seq<char> {
    s.skip(rfind(s, c) + 1)
}

/// What precedes the last `c`; all of `s` where there is none.
pub open spec fn before_last(s: Seq<char>, c: char) -> Seq<char> {
    let i = rfind(s, c);
    if i >= 0 {
        s.take(i)
    } else {
        s
    }
}

/// What precedes the last `c`; nothing where there is none.
pub open spec fn in_front_of_last(s: Seq<char>, c: char) -> Seq<char> {
    let i = rfind(s, c);
    if i >= 0 {
        s.take(i)
    } else {
        Seq::empty()
    }
}

/// Whether `a` may stand before `b` in the order of their characters.
pub open spec fn text_le(a: Seq<char>, b: Seq<char>) -> bool
    decreases a.len(),
{
    if a.len() == 0 {
        true
    } else if b.len() == 0 {
        false
    } else {
        a[0] < b[0] || (a[0] == b[0] && text_le(a.skip(1), b.skip(1)))
    }
}

/// A line without the carriage return that ends it.
pub open spec fn without_cr(l: Seq<char>) -> Seq<char> {
    if l.len() > 0 && l.last() == '\r' {
        l.drop_last()
    } else {
        l
    }
}

/// The lines of a text. A line ends with a line feed, which may follow a
/// carriage return; the last line may lack its end.
pub open spec fn lines_of(s: Seq<char>) -> Seq<Seq<char>>
    decreases s.len(),
{
    let i = find(s, '\n');
    if s.len() == 0 {
        Seq::empty()
    } else if 0 <= i < s.len() {
        seq![without_cr(s.take(i))] + lines_of(s.skip(i + 1))
    } else {
        seq![s]
    }
}

/// The first run of characters that are not whitespace.
pub open spec fn first_word(s: Seq<char>) -> Option<Seq<char>> {
    let t = skip_while(s, white());
    let rest = skip_while(t, |c: char| !is_white(c));
    if t.len() > 0 {
        Some(t.take(t.len() - rest.len()))
    } else {
        None
    }
}

/// What follows `p` in a text that begins with it.
pub open spec fn stripped_prefix(s: Seq<char>, p: Seq<char>) -> Option<Seq<char>> {
    if p.is_prefix_of(s) {
        Some(s.skip(p.len() as int))
    } else {
        None
    }
}

/// What precedes `p` in a text that ends with it.
pub open spec fn stripped_suffix(s: Seq<char>, p: Seq<char>) -> Option<Seq<char>> {
    if p.is_suffix_of(s) {
        Some(s.take(s.len() - p.len()))
    } else {
        None
    }
}

/// The parts in order, with `sep` between neighbours.
pub open spec fn joined(parts: Seq<Seq<char>>, sep: Seq<char>) -> Seq<char>
    decreases parts.len(),
{
    if parts.len() == 0 {
        Seq::empty()
    } else if parts.len() == 1 {
        parts[0]
    } else {
        joined(parts.drop_last(), sep) + sep + parts.last()
    }
}

/// The lower-case form of an ASCII letter; any other character unchanged.
pub open spec fn ascii_lower(c: char) -> char {
    if 'A' <= c <= 'Z' {
        (c as u8 + 32) as char
    } else {
        c
    }
}

/// A text with its ASCII letters in lower case.
pub open spec fn lowered(s: Seq<char>) -> Seq<char> {
    s.map_values(|c: char| ascii_lower(c))
}

/// Whether a character is a decimal digit.
pub open spec fn is_digit(c: char) -> bool {
    '0' <= c <= '9'
}

/// The number that a row of decimal digits stands for.
pub open spec fn digits_value(s: Seq<char>) -> nat
    decreases s.len(),
{
    if s.len() == 0 {
        0
    } else {
        10 * digits_value(s.drop_last()) + (s.last() as nat - '0' as nat) as nat
    }
}

/// `s` without the plus sign that it begins with.
pub open spec fn without_plus(s: Seq<char>) -> Seq<char> {
    if s.len() > 0 && s[0] == '+' {
        s.skip(1)
    } else {
        s
    }
}

/// Whether every character is a decimal digit.
pub open spec fn all_digits(s: Seq<char>) -> bool {
    forall|i: int| 0 <= i < s.len() ==> is_digit(#[trigger] s[i])
}

/// The whole number that `s` reads as: decimal digits behind an optional `+`, at least one
/// of them.
pub open spec fn whole_number(s: Seq<char>) -> Option<nat> {
    let d = without_plus(s);
    if d.len() > 0 && all_digits(d) {
        Some(digits_value(d))
    } else {
        None
    }
}

/// The whole number that `s` reads as, where it is no more than `max`.
pub open spec fn number(s: Seq<char>, max: nat) -> Option<nat> {
    match whole_number(s) {
        Some(n) => if n <= max {
            Some(n)
        } else {
            None
        },
        None => None,
    }
}

/// The character of a single digit.
pub open spec fn digit_char(d: nat) -> char {
    (d + '0' as nat) as char
}

/// The decimal form of a number, without leading zeros.
pub open spec fn decimal(n: nat) -> Seq<char>
    decreases n,
{
    if n < 10 {
        seq![digit_char(n)]
    } else {
        decimal(n / 10).push(digit_char(n % 10))
    }
}

/// The characters of a string, in order.
pub fn chars_of(s: &str) -> (r: Vec<char>)
    ensures
        r@ == s@,
{
    let mut out: Vec<char> = Vec::new();
    for c in it: s.chars()
        invariant
            it.seq() == s@,
            out@ == s@.take(it.index()),
    {
        proof {
            assert(s@.take(it.index() + 1) =~= s@.take(it.index()).push(s@[it.index()]));
        }
        out.push(c);
    }
    assert(s@.take(s@.len() as int) =~= s@);
    out
}

/// The string that holds the characters `from..to` of `cs`.
pub fn text_range(cs: &Vec<char>, from: usize, to: usize) -> (r: String)
    requires
        from <= to <= cs@.len(),
    ensures
        r@ == cs@.subrange(from as int, to as int),
{
    let mut out = String::new();
    let mut i: usize = from;
    while i < to
        invariant
            from <= i <= to <= cs@.len(),
            out@ == cs@.subrange(from as int, i as int),
        decreases to - i,
    {
        out.push(cs[i]);
        proof {
            assert(cs@.subrange(from as int, i + 1) =~= cs@.subrange(from as int, i as int).push(
                cs@[i as int],
            ));
        }
        i += 1;
    }
    out
}

/// Whether two texts hold the same characters.
pub fn same_text(a: &str, b: &str) -> (r: bool)
    ensures
        r == (a@ == b@),
{
    let x = chars_of(a);
    let y = chars_of(b);
    same_chars(&x, &y)
}

fn same_chars(x: &Vec<char>, y: &Vec<char>) -> (r: bool)
    ensures
        r == (x@ == y@),
{
    if x.len() != y.len() {
        return false;
    }
    let mut i: usize = 0;
    while i < x.len()
        invariant
            i <= x@.len(),
            x@.len() == y@.len(),
            forall|j: int| 0 <= j < i ==> x@[j] == y@[j],
        decreases x@.len() - i,
    {
        if x[i] != y[i] {
            assert(x@[i as int] != y@[i as int]);
            return false;
        }
        i += 1;
    }
    assert(x@ =~= y@);
    true
}

/// Whether a character is whitespace.
pub fn white_char(c: char) -> (r: bool)
    ensures
        r == is_white(c),
{
    ('\u{9}' <= c && c <= '\u{d}') || c == '\u{20}' || c == '\u{85}' || c == '\u{a0}' || c
        == '\u{1680}' || ('\u{2000}' <= c && c <= '\u{200a}') || c == '\u{2028}' || c == '\u{2029}'
        || c == '\u{202f}' || c == '\u{205f}' || c == '\u{3000}'
}

/// `s` without whitespace at either end.
pub fn trim(s: &str) -> (r: String)
    ensures
        r@ == trimmed(s@),
{
    let cs = chars_of(s);
    let mut from: usize = 0;
    assert(cs@.skip(0) =~= s@);
    while from < cs.len() && white_char(cs[from])
        invariant
            from <= cs@.len(),
            skip_while(cs@.skip(from as int), white()) == skip_while(s@, white()),
        decreases cs@.len() - from,
    {
        proof {
            assert(cs@.skip(from as int).skip(1) =~= cs@.skip(from + 1));
        }
        from += 1;
    }
    let ghost t = cs@.skip(from as int);
    assert(skip_while(t, white()) == t);
    let mut to: usize = cs.len();
    assert(cs@.subrange(from as int, to as int) =~= t);
    while to > from && white_char(cs[to - 1])
        invariant
            from <= to <= cs@.len(),
            drop_tail_while(cs@.subrange(from as int, to as int), white()) == drop_tail_while(
                t,
                white(),
            ),
        decreases to,
    {
        proof {
            assert(cs@.subrange(from as int, to as int).drop_last() =~= cs@.subrange(
                from as int,
                to - 1,
            ));
        }
        to -= 1;
    }
    assert(drop_tail_while(cs@.subrange(from as int, to as int), white()) == cs@.subrange(
        from as int,
        to as int,
    ));
    text_range(&cs, from, to)
}

/// `s` without the `c`s that it begins with.
pub fn trim_start_char(s: &str, c: char) -> (r: String)
    ensures
        r@ == skip_while(s@, only(c)),
{
    let cs = chars_of(s);
    let mut from: usize = 0;
    assert(cs@.skip(0) =~= s@);
    while from < cs.len() && cs[from] == c
        invariant
            from <= cs@.len(),
            skip_while(cs@.skip(from as int), only(c)) == skip_while(s@, only(c)),
        decreases cs@.len() - from,
    {
        proof {
            assert(cs@.skip(from as int).skip(1) =~= cs@.skip(from + 1));
        }
        from += 1;
    }
    assert(cs@.subrange(from as int, cs@.len() as int) =~= cs@.skip(from as int));
    text_range(&cs, from, cs.len())
}

/// `s` without the `c`s that it ends with.
pub fn trim_end_char(s: &str, c: char) -> (r: String)
    ensures
        r@ == drop_tail_while(s@, only(c)),
{
    let cs = chars_of(s);
    let mut to: usize = cs.len();
    assert(cs@.take(to as int) =~= s@);
    while to > 0 && cs[to - 1] == c
        invariant
            to <= cs@.len(),
            drop_tail_while(cs@.take(to as int), only(c)) == drop_tail_while(s@, only(c)),
        decreases to,
    {
        proof {
            assert(cs@.take(to as int).drop_last() =~= cs@.take(to - 1));
        }
        to -= 1;
    }
    assert(cs@.subrange(0, to as int) =~= cs@.take(to as int));
    text_range(&cs, 0, to)
}

proof fn lemma_find(s: Seq<char>, c: char)
    ensures
        0 <= find(s, c) <= s.len(),
        find(s, c) < s.len() ==> s[find(s, c)] == c,
        forall|j: int| 0 <= j < find(s, c) ==> s[j] != c,
    decreases s.len(),
{
    if s.len() > 0 && s[0] != c {
        lemma_find(s.skip(1), c);
        assert forall|j: int| 0 <= j < find(s, c) implies s[j] != c by {
            if j > 0 {
                assert(s.skip(1)[j - 1] != c);
            }
        }
    }
}

proof fn lemma_rfind(s: Seq<char>, c: char)
    ensures
        -1 <= rfind(s, c) < s.len(),
        rfind(s, c) >= 0 ==> s[rfind(s, c)] == c,
        forall|j: int| rfind(s, c) < j < s.len() ==> s[j] != c,
    decreases s.len(),
{
    if s.len() > 0 && s.last() != c {
        lemma_rfind(s.drop_last(), c);
        assert forall|j: int| rfind(s, c) < j < s.len() implies s[j] != c by {
            if j < s.len() - 1 {
                assert(s.drop_last()[j] != c);
            }
        }
    }
}

fn find_from(cs: &Vec<char>, from: usize, c: char) -> (r: usize)
    requires
        from <= cs@.len(),
    ensures
        from <= r <= cs@.len(),
        r == from + find(cs@.skip(from as int), c),
{
    let mut i: usize = from;
    while i < cs.len() && cs[i] != c
        invariant
            from <= i <= cs@.len(),
            i + find(cs@.skip(i as int), c) == from + find(cs@.skip(from as int), c),
        decreases cs@.len() - i,
    {
        proof {
            assert(cs@.skip(i as int).skip(1) =~= cs@.skip(i + 1));
        }
        i += 1;
    }
    i
}

/// The pieces of `s` between the occurrences of `c`.
pub fn split_char(s: &str, c: char) -> (r: Vec<String>)
    ensures
        texts(r@) == pieces(s@, c),
{
    let cs = chars_of(s);
    let mut out: Vec<String> = Vec::new();
    let mut from: usize = 0;
    assert(cs@.skip(0) =~= s@);
    assert(texts(out@) + pieces(s@, c) =~= pieces(s@, c));
    loop
        invariant
            from <= cs@.len(),
            texts(out@) + pieces(cs@.skip(from as int), c) == pieces(s@, c),
        decreases cs@.len() - from,
    {
        let i = find_from(&cs, from, c);
        let piece = text_range(&cs, from, i);
        let ghost rest = cs@.skip(from as int);
        let ghost done = texts(out@);
        proof {
            lemma_find(rest, c);
            assert(piece@ =~= rest.take(i - from));
        }
        out.push(piece);
        assert(texts(out@) =~= done.push(piece@));
        if i < cs.len() {
            proof {
                assert(rest.skip(i - from + 1) =~= cs@.skip(i + 1));
                assert(done + (seq![piece@] + pieces(cs@.skip(i + 1), c)) =~= texts(out@) + pieces(
                    cs@.skip(i + 1),
                    c,
                ));
            }
            from = i + 1;
        } else {
            proof {
                assert(piece@ =~= rest);
                assert(done + seq![rest] =~= texts(out@));
            }
            return out;
        }
    }
}

/// The two halves of `s` around the first `c`.
pub fn split_once_char(s: &str, c: char) -> (r: Option<(String, String)>)
    ensures
        match r {
            Some((a, b)) => halves(s@, c) == Some((a@, b@)),
            None => halves(s@, c) is None,
        },
{
    let cs = chars_of(s);
    assert(cs@.skip(0) =~= s@);
    let i = find_from(&cs, 0, c);
    if i < cs.len() {
        assert(cs@.subrange(0, i as int) =~= s@.take(i as int));
        assert(cs@.subrange(i + 1, cs@.len() as int) =~= s@.skip(i + 1));
        Some((text_range(&cs, 0, i), text_range(&cs, i + 1, cs.len())))
    } else {
        None
    }
}

/// The position just behind the last `c`, or 0.
fn after_last_index(cs: &Vec<char>, c: char) -> (r: usize)
    ensures
        r <= cs@.len(),
        r == rfind(cs@, c) + 1,
{
    let mut i: usize = cs.len();
    assert(cs@.take(i as int) =~= cs@);
    while i > 0 && cs[i - 1] != c
        invariant
            i <= cs@.len(),
            rfind(cs@.take(i as int), c) == rfind(cs@, c),
        decreases i,
    {
        proof {
            assert(cs@.take(i as int).drop_last() =~= cs@.take(i - 1));
        }
        i -= 1;
    }
    i
}

/// What follows the last `c` in `s`; all of `s` where there is none.
pub fn tail_after_last(s: &str, c: char) -> (r: String)
    ensures
        r@ == after_last(s@, c),
{
    let cs = chars_of(s);
    let i = after_last_index(&cs, c);
    assert(cs@.subrange(i as int, cs@.len() as int) =~= s@.skip(i as int));
    text_range(&cs, i, cs.len())
}

/// What precedes the last `c` in `s`; all of `s` where there is none.
pub fn head_before_last(s: &str, c: char) -> (r: String)
    ensures
        r@ == before_last(s@, c),
{
    let cs = chars_of(s);
    let i = after_last_index(&cs, c);
    if i > 0 {
        assert(cs@.subrange(0, i - 1) =~= s@.take(i - 1));
        text_range(&cs, 0, i - 1)
    } else {
        assert(cs@.subrange(0, cs@.len() as int) =~= s@);
        text_range(&cs, 0, cs.len())
    }
}

/// What precedes the last `c` in `s`; nothing where there is none.
pub fn text_in_front_of_last(s: &str, c: char) -> (r: String)
    ensures
        r@ == in_front_of_last(s@, c),
{
    let cs = chars_of(s);
    let i = after_last_index(&cs, c);
    if i > 0 {
        assert(cs@.subrange(0, i - 1) =~= s@.take(i - 1));
        text_range(&cs, 0, i - 1)
    } else {
        String::new()
    }
}

/// Whether `a` may stand before `b` in the order of their characters.
pub fn text_at_most(a: &str, b: &str) -> (r: bool)
    ensures
        r == text_le(a@, b@),
{
    let x = chars_of(a);
    let y = chars_of(b);
    let mut i: usize = 0;
    assert(x@.skip(0) =~= x@);
    assert(y@.skip(0) =~= y@);
    while i < x.len()
        invariant
            i <= x@.len(),
            i <= y@.len(),
            x@ == a@,
            y@ == b@,
            text_le(x@, y@) == text_le(x@.skip(i as int), y@.skip(i as int)),
        decreases x@.len() - i,
    {
        if i == y.len() {
            return false;
        }
        assert(x@.skip(i as int)[0] == x@[i as int]);
        assert(y@.skip(i as int)[0] == y@[i as int]);
        if x[i] != y[i] {
            return x[i] < y[i];
        }
        assert(x@.skip(i as int).skip(1) =~= x@.skip(i + 1));
        assert(y@.skip(i as int).skip(1) =~= y@.skip(i + 1));
        i += 1;
    }
    true
}

/// Of two texts one may stand before the other, and both only where they are equal.
pub proof fn texts_are_ordered(a: Seq<char>, b: Seq<char>)
    ensures
        text_le(a, b) || text_le(b, a),
        text_le(a, b) && text_le(b, a) <==> a == b,
    decreases a.len(),
{
    if a.len() > 0 && b.len() > 0 {
        texts_are_ordered(a.skip(1), b.skip(1));
        if a[0] == b[0] && a.skip(1) == b.skip(1) {
            assert(a =~= seq![a[0]] + a.skip(1));
            assert(b =~= seq![b[0]] + b.skip(1));
        }
    } else if a.len() == 0 && b.len() == 0 {
        assert(a =~= b);
    }
}

/// The order of texts is transitive.
pub proof fn text_order_is_transitive(a: Seq<char>, b: Seq<char>, c: Seq<char>)
    requires
        text_le(a, b),
        text_le(b, c),
    ensures
        text_le(a, c),
    decreases a.len(),
{
    if a.len() > 0 && a[0] == b[0] && b[0] == c[0] {
        text_order_is_transitive(a.skip(1), b.skip(1), c.skip(1));
    }
}

/// The lines of `s`.
pub fn lines(s: &str) -> (r: Vec<String>)
    ensures
        texts(r@) == lines_of(s@),
{
    let cs = chars_of(s);
    let mut out: Vec<String> = Vec::new();
    let mut from: usize = 0;
    assert(cs@.skip(0) =~= s@);
    assert(texts(out@) + lines_of(s@) =~= lines_of(s@));
    while from < cs.len()
        invariant
            from <= cs@.len(),
            texts(out@) + lines_of(cs@.skip(from as int)) == lines_of(s@),
        decreases cs@.len() - from,
    {
        let i = find_from(&cs, from, '\n');
        let ghost rest = cs@.skip(from as int);
        let ghost done = texts(out@);
        proof {
            lemma_find(rest, '\n');
        }
        if i < cs.len() {
            let to = if i > from && cs[i - 1] == '\r' {
                i - 1
            } else {
                i
            };
            let line = text_range(&cs, from, to);
            proof {
                assert(line@ =~= without_cr(rest.take(i - from)));
                assert(rest.skip(i - from + 1) =~= cs@.skip(i + 1));
            }
            out.push(line);
            proof {
                assert(texts(out@) =~= done.push(line@));
                assert(done + (seq![line@] + lines_of(cs@.skip(i + 1))) =~= texts(out@) + lines_of(
                    cs@.skip(i + 1),
                ));
            }
            from = i + 1;
        } else {
            let line = text_range(&cs, from, cs.len());
            assert(line@ =~= rest);
            out.push(line);
            proof {
                assert(texts(out@) =~= done.push(line@));
                assert(cs@.skip(cs@.len() as int) =~= Seq::empty());
                assert(done + seq![rest] =~= texts(out@) + lines_of(cs@.skip(cs@.len() as int)));
            }
            from = cs.len();
        }
    }
    assert(cs@.skip(cs@.len() as int) =~= Seq::empty());
    assert(texts(out@) + Seq::<Seq<char>>::empty() =~= texts(out@));
    out
}

/// The first run of characters of `s` that are not whitespace.
pub fn word(s: &str) -> (r: Option<String>)
    ensures
        opt_text(r) == first_word(s@),
{
    let cs = chars_of(s);
    let ghost dark = |c: char| !is_white(c);
    let mut from: usize = 0;
    assert(cs@.skip(0) =~= s@);
    while from < cs.len() && white_char(cs[from])
        invariant
            from <= cs@.len(),
            skip_while(cs@.skip(from as int), white()) == skip_while(s@, white()),
        decreases cs@.len() - from,
    {
        proof {
            assert(cs@.skip(from as int).skip(1) =~= cs@.skip(from + 1));
        }
        from += 1;
    }
    let ghost t = cs@.skip(from as int);
    assert(skip_while(t, white()) == t);
    if from == cs.len() {
        return None;
    }
    let mut to: usize = from;
    while to < cs.len() && !white_char(cs[to])
        invariant
            from <= to <= cs@.len(),
            dark == (|c: char| !is_white(c)),
            skip_while(cs@.skip(to as int), dark) == skip_while(t, dark),
        decreases cs@.len() - to,
    {
        proof {
            assert(cs@.skip(to as int).skip(1) =~= cs@.skip(to + 1));
        }
        to += 1;
    }
    assert(skip_while(t, dark).len() == cs@.len() - to);
    assert(cs@.subrange(from as int, to as int) =~= t.take(to - from));
    Some(text_range(&cs, from, to))
}

fn range_is(cs: &Vec<char>, from: usize, ps: &Vec<char>) -> (r: bool)
    requires
        from + ps@.len() <= cs@.len(),
    ensures
        r == (cs@.subrange(from as int, from + ps@.len()) == ps@),
{
    let n = cs.len();
    let mut i: usize = 0;
    while i < ps.len()
        invariant
            i <= ps@.len(),
            n == cs@.len(),
            from + ps@.len() <= n,
            forall|j: int| 0 <= j < i ==> cs@[from + j] == ps@[j],
        decreases ps@.len() - i,
    {
        if cs[from + i] != ps[i] {
            assert(cs@.subrange(from as int, from + ps@.len())[i as int] != ps@[i as int]);
            return false;
        }
        i += 1;
    }
    assert(cs@.subrange(from as int, from + ps@.len()) =~= ps@);
    true
}

/// Whether `s` begins with `p`.
pub fn starts_with(s: &str, p: &str) -> (r: bool)
    ensures
        r == p@.is_prefix_of(s@),
{
    let cs = chars_of(s);
    let ps = chars_of(p);
    ps.len() <= cs.len() && range_is(&cs, 0, &ps)
}

/// Whether `s` ends with `p`.
pub fn ends_with(s: &str, p: &str) -> (r: bool)
    ensures
        r == p@.is_suffix_of(s@),
{
    let cs = chars_of(s);
    let ps = chars_of(p);
    ps.len() <= cs.len() && range_is(&cs, cs.len() - ps.len(), &ps)
}

/// What follows `p` in an `s` that begins with it.
pub fn strip_prefix(s: &str, p: &str) -> (r: Option<String>)
    ensures
        opt_text(r) == stripped_prefix(s@, p@),
{
    let cs = chars_of(s);
    let ps = chars_of(p);
    if ps.len() <= cs.len() && range_is(&cs, 0, &ps) {
        assert(cs@.subrange(ps@.len() as int, cs@.len() as int) =~= s@.skip(p@.len() as int));
        Some(text_range(&cs, ps.len(), cs.len()))
    } else {
        None
    }
}

/// What precedes `p` in an `s` that ends with it.
pub fn strip_suffix(s: &str, p: &str) -> (r: Option<String>)
    ensures
        opt_text(r) == stripped_suffix(s@, p@),
{
    let cs = chars_of(s);
    let ps = chars_of(p);
    if ps.len() <= cs.len() && range_is(&cs, cs.len() - ps.len(), &ps) {
        let to: usize = cs.len() - ps.len();
        assert(cs@.subrange(0, to as int) =~= s@.take(to as int));
        Some(text_range(&cs, 0, to))
    } else {
        None
    }
}

/// The parts in order, with `sep` between neighbours.
pub fn join_texts(parts: &Vec<String>, sep: &str) -> (r: String)
    ensures
        r@ == joined(texts(parts@), sep@),
{
    let mut out = String::new();
    let mut i: usize = 0;
    while i < parts.len()
        invariant
            i <= parts@.len(),
            out@ == joined(texts(parts@).take(i as int), sep@),
        decreases parts@.len() - i,
    {
        if i > 0 {
            out.append(sep);
        }
        out.append(parts[i].as_str());
        proof {
            let more = texts(parts@).take(i + 1);
            assert(more.drop_last() =~= texts(parts@).take(i as int));
            assert(more.last() == parts@[i as int]@);
            if i == 0 {
                assert(Seq::<char>::empty() + more[0] =~= more[0]);
            }
        }
        i += 1;
    }
    assert(texts(parts@).take(parts@.len() as int) =~= texts(parts@));
    out
}

/// The lower-case form of an ASCII letter; any other character unchanged.
pub fn lower_char(c: char) -> (r: char)
    ensures
        r == ascii_lower(c),
{
    if 'A' <= c && c <= 'Z' {
        (c as u8 + 32) as char
    } else {
        c
    }
}

/// A text with its ASCII letters in lower case.
pub fn to_lower(s: &str) -> (r: String)
    ensures
        r@ == lowered(s@),
{
    let cs = chars_of(s);
    let mut out = String::new();
    let mut i: usize = 0;
    while i < cs.len()
        invariant
            i <= cs@.len(),
            cs@ == s@,
            out@ == lowered(s@.take(i as int)),
        decreases cs@.len() - i,
    {
        out.push(lower_char(cs[i]));
        assert(lowered(s@.take(i + 1)) =~= lowered(s@.take(i as int)).push(
            ascii_lower(s@[i as int]),
        ));
        i += 1;
    }
    assert(s@.take(s@.len() as int) =~= s@);
    out
}

/// Whether two texts agree when the case of ASCII letters is set aside.
pub fn same_text_ignoring_case(a: &str, b: &str) -> (r: bool)
    ensures
        r == (lowered(a@) == lowered(b@)),
{
    let x = to_lower(a);
    let y = to_lower(b);
    same_text(x.as_str(), y.as_str())
}

/// A whole number, as far as 64 bits hold it.
enum Digits {
    Value(u64),
    Beyond,
    NoNumber,
}

fn read_digits(s: &str) -> (r: Digits)
    ensures
        match r {
            Digits::Value(v) => whole_number(s@) == Some(v as nat),
            Digits::Beyond => whole_number(s@) matches Some(n) && n > u64::MAX,
            Digits::NoNumber => whole_number(s@) is None,
        },
{
    let cs = chars_of(s);
    let from: usize = if cs.len() > 0 && cs[0] == '+' {
        1
    } else {
        0
    };
    let ghost d = without_plus(s@);
    assert(d =~= cs@.skip(from as int));
    if from == cs.len() {
        return Digits::NoNumber;
    }
    let mut value: u64 = 0;
    let mut overflown: bool = false;
    let mut i: usize = from;
    while i < cs.len()
        invariant
            from <= i <= cs@.len(),
            d == cs@.skip(from as int),
            forall|j: int| 0 <= j < i - from ==> is_digit(#[trigger] d[j]),
            overflown ==> digits_value(d.take(i - from)) > u64::MAX,
            !overflown ==> digits_value(d.take(i - from)) == value,
            d == without_plus(s@),
        decreases cs@.len() - i,
    {
        let c = cs[i];
        assert(d[i - from] == c);
        if !('0' <= c && c <= '9') {
            assert(!all_digits(d));
            return Digits::NoNumber;
        }
        proof {
            assert(d.take(i - from + 1).drop_last() =~= d.take(i - from));
            assert(d.take(i - from + 1).last() == c);
        }
        let digit: u64 = (c as u32 - '0' as u32) as u64;
        if !overflown {
            match value.checked_mul(10) {
                Some(tens) => match tens.checked_add(digit) {
                    Some(v) => {
                        value = v;
                    },
                    None => {
                        overflown = true;
                    },
                },
                None => {
                    overflown = true;
                },
            }
        }
        i += 1;
    }
    assert(d.take(d.len() as int) =~= d);
    if overflown {
        Digits::Beyond
    } else {
        Digits::Value(value)
    }
}

/// The number that `s` reads as, where it fits 64 bits.
pub fn parse_u64(s: &str) -> (r: Option<u64>)
    ensures
        match r {
            Some(v) => number(s@, u64::MAX as nat) == Some(v as nat),
            None => number(s@, u64::MAX as nat) is None,
        },
{
    match read_digits(s) {
        Digits::Value(v) => Some(v),
        _ => None,
    }
}

/// The whole number that `s` reads as, or `cap` where it is larger.
pub fn parse_capped(s: &str, cap: u64) -> (r: Option<u64>)
    ensures
        match (r, whole_number(s@)) {
            (Some(v), Some(n)) => v == (if n <= cap {
                n as int
            } else {
                cap as int
            }),
            (None, None) => true,
            _ => false,
        },
{
    match read_digits(s) {
        Digits::Value(v) => Some(
            if v <= cap {
                v
            } else {
                cap
            },
        ),
        Digits::Beyond => Some(cap),
        Digits::NoNumber => None,
    }
}

/// The number that `s` reads as, where it fits 32 bits.
pub fn parse_u32(s: &str) -> (r: Option<u32>)
    ensures
        match r {
            Some(v) => number(s@, u32::MAX as nat) == Some(v as nat),
            None => number(s@, u32::MAX as nat) is None,
        },
{
    match parse_u64(s) {
        Some(v) => if v <= 0xffff_ffff {
            Some(v as u32)
        } else {
            None
        },
        None => None,
    }
}

/// The decimal form of a number.
pub fn decimal_text(n: u64) -> (r: String)
    ensures
        r@ == decimal(n as nat),
    decreases n,
{
    let digit: u8 = (n % 10) as u8;
    let c: char = (48 + digit) as char;
    let mut out = if n < 10 {
        String::new()
    } else {
        decimal_text(n / 10)
    };
    out.push(c);
    proof {
        assert(c == digit_char((n % 10) as nat));
        if n < 10 {
            assert(out@ =~= seq![digit_char(n as nat)]);
        }
    }
    out
}

/// A number's decimal text is made of digits, is not empty, and stands for the number.
pub proof fn lemma_decimal(n: nat)
    ensures
        decimal(n).len() > 0,
        forall|i: int| 0 <= i < decimal(n).len() ==> is_digit(#[trigger] decimal(n)[i]),
        digits_value(decimal(n)) == n,
    decreases n,
{
    reveal_with_fuel(digits_value, 2);
    if n < 10 {
        assert(decimal(n).drop_last() =~= Seq::empty());
    } else {
        lemma_decimal(n / 10);
        assert(decimal(n).drop_last() =~= decimal(n / 10));
    }
}

/// A number's decimal form reads as that number.
pub proof fn decimal_reads_back(n: nat, max: nat)
    requires
        n <= max,
    ensures
        number(decimal(n), max) == Some(n),
{
    lemma_decimal(n);
    assert(is_digit(decimal(n)[0]));
}

/// Trimming is idempotent.
pub proof fn trimming_twice_is_trimming_once(s: Seq<char>)
    ensures
        trimmed(trimmed(s)) == trimmed(s),
{
    let t = skip_while(s, white());
    lemma_skip_while_head(s, white());
    lemma_drop_tail_last(t, white());
    let u = drop_tail_while(t, white());
    if u.len() > 0 {
        assert(u[0] == t[0]);
    }
}

proof fn lemma_skip_while_head(s: Seq<char>, p: spec_fn(char) -> bool)
    ensures
        skip_while(s, p).len() > 0 ==> !p(skip_while(s, p)[0]),
    decreases s.len(),
{
    if s.len() > 0 && p(s[0]) {
        lemma_skip_while_head(s.skip(1), p);
    }
}

proof fn lemma_drop_tail_last(s: Seq<char>, p: spec_fn(char) -> bool)
    ensures
        drop_tail_while(s, p).len() > 0 ==> !p(drop_tail_while(s, p).last()),
        drop_tail_while(s, p).is_prefix_of(s),
    decreases s.len(),
{
    if s.len() > 0 && p(s.last()) {
        lemma_drop_tail_last(s.drop_last(), p);
        assert(drop_tail_while(s, p).is_prefix_of(s));
    }
}

/// Whether `c` does not occur in `s`.
pub open spec fn lacks(s: Seq<char>, c: char) -> bool {
    forall|i: int| 0 <= i < s.len() ==> #[trigger] s[i] != c
}

/// Whether every character of `s` is whitespace.
pub open spec fn all_white(s: Seq<char>) -> bool {
    forall|i: int| 0 <= i < s.len() ==> is_white(#[trigger] s[i])
}

/// Whether `s` neither begins nor ends with whitespace.
pub open spec fn firm_ends(s: Seq<char>) -> bool {
    s.len() > 0 ==> !is_white(s[0]) && !is_white(s.last())
}

proof fn lemma_skip_front(a: Seq<char>, s: Seq<char>, p: spec_fn(char) -> bool)
    requires
        forall|i: int| 0 <= i < a.len() ==> p(#[trigger] a[i]),
        s.len() > 0 ==> !p(s[0]),
    ensures
        skip_while(a + s, p) == s,
    decreases a.len(),
{
    if a.len() == 0 {
        assert(a + s =~= s);
    } else {
        assert((a + s)[0] == a[0]);
        assert((a + s).skip(1) =~= a.skip(1) + s);
        assert forall|i: int| 0 <= i < a.skip(1).len() implies p(#[trigger] a.skip(1)[i]) by {
            assert(a.skip(1)[i] == a[i + 1]);
        }
        lemma_skip_front(a.skip(1), s, p);
    }
}

proof fn lemma_drop_back(s: Seq<char>, b: Seq<char>, p: spec_fn(char) -> bool)
    requires
        forall|i: int| 0 <= i < b.len() ==> p(#[trigger] b[i]),
        s.len() > 0 ==> !p(s.last()),
    ensures
        drop_tail_while(s + b, p) == s,
    decreases b.len(),
{
    if b.len() == 0 {
        assert(s + b =~= s);
    } else {
        assert((s + b).last() == b[b.len() - 1]);
        assert((s + b).drop_last() =~= s + b.drop_last());
        assert forall|i: int| 0 <= i < b.drop_last().len() implies p(
            #[trigger] b.drop_last()[i],
        ) by {
            assert(b.drop_last()[i] == b[i]);
        }
        lemma_drop_back(s, b.drop_last(), p);
    }
}

/// Trimming takes the whitespace off both ends and leaves what is between them.
pub proof fn trimming_leaves_what_is_between(a: Seq<char>, s: Seq<char>, b: Seq<char>)
    requires
        all_white(a),
        all_white(b),
        firm_ends(s),
    ensures
        trimmed(a + s + b) == s,
{
    let p = white();
    if s.len() > 0 {
        assert(a + s + b =~= a + (s + b));
        assert((s + b)[0] == s[0]);
        lemma_skip_front(a, s + b, p);
        lemma_drop_back(s, b, p);
    } else {
        let all = a + s + b;
        assert(all =~= (a + b) + s);
        assert forall|i: int| 0 <= i < (a + b).len() implies p(#[trigger] (a + b)[i]) by {
            if i < a.len() {
                assert((a + b)[i] == a[i]);
            } else {
                assert((a + b)[i] == b[i - a.len()]);
            }
        }
        lemma_skip_front(a + b, s, p);
        assert(s =~= Seq::empty());
    }
}

/// Characters at one end are taken off, as many as there are, and no others.
pub proof fn taking_off_one_character(a: Seq<char>, s: Seq<char>, c: char)
    requires
        forall|i: int| 0 <= i < a.len() ==> #[trigger] a[i] == c,
    ensures
        s.len() > 0 && s[0] != c ==> skip_while(a + s, only(c)) == s,
        s.len() > 0 && s.last() != c ==> drop_tail_while(s + a, only(c)) == s,
        skip_while(a, only(c)).len() == 0,
{
    if s.len() > 0 && s[0] != c {
        lemma_skip_front(a, s, only(c));
    }
    if s.len() > 0 && s.last() != c {
        lemma_drop_back(s, a, only(c));
    }
    lemma_skip_front(a, Seq::empty(), only(c));
    assert(a + Seq::empty() =~= a);
}

proof fn lemma_find_first(a: Seq<char>, c: char, rest: Seq<char>)
    requires
        lacks(a, c),
    ensures
        find(a + seq![c] + rest, c) == a.len(),
        find(a, c) == a.len(),
{
    let s = a + seq![c] + rest;
    lemma_find(s, c);
    lemma_find(a, c);
    assert(s[a.len() as int] == c);
    if find(s, c) < a.len() {
        assert(s[find(s, c)] == a[find(s, c)]);
    }
    if find(s, c) > a.len() {
        assert(s[a.len() as int] != c);
    }
    if find(a, c) < a.len() {
        assert(a[find(a, c)] == c);
    }
}

proof fn lemma_rfind_last(front: Seq<char>, c: char, b: Seq<char>)
    requires
        lacks(b, c),
    ensures
        rfind(front + seq![c] + b, c) == front.len(),
        rfind(b, c) == -1,
{
    let s = front + seq![c] + b;
    lemma_rfind(s, c);
    lemma_rfind(b, c);
    assert(s[front.len() as int] == c);
    if rfind(s, c) > front.len() {
        assert(s[rfind(s, c)] == b[rfind(s, c) - front.len() - 1]);
    }
    if rfind(s, c) < front.len() {
        assert(s[front.len() as int] != c);
    }
    if rfind(b, c) >= 0 {
        assert(b[rfind(b, c)] == c);
    }
}

/// Splitting cuts at every separator, at the first one first, and nowhere else.
pub proof fn splitting_cuts_at_separators(a: Seq<char>, c: char, rest: Seq<char>)
    requires
        lacks(a, c),
    ensures
        pieces(a, c) == seq![a],
        pieces(a + seq![c] + rest, c) == seq![a] + pieces(rest, c),
        halves(a, c) is None,
        halves(a + seq![c] + rest, c) == Some((a, rest)),
{
    let s = a + seq![c] + rest;
    lemma_find_first(a, c, rest);
    assert(s.take(a.len() as int) =~= a);
    assert(s.skip(a.len() as int + 1) =~= rest);
}

/// The last separator parts a text in what precedes it and what follows it.
pub proof fn the_last_separator_parts_a_text(a: Seq<char>, c: char, b: Seq<char>)
    requires
        lacks(b, c),
    ensures
        after_last(a + seq![c] + b, c) == b,
        before_last(a + seq![c] + b, c) == a,
        in_front_of_last(a + seq![c] + b, c) == a,
        after_last(b, c) == b,
        before_last(b, c) == b,
        in_front_of_last(b, c).len() == 0,
{
    let s = a + seq![c] + b;
    lemma_rfind_last(a, c, b);
    assert(s.take(a.len() as int) =~= a);
    assert(s.skip(a.len() as int + 1) =~= b);
    assert(b.skip(0) =~= b);
}

/// A line ends before a line feed, or before a carriage return and a line feed; the last
/// line may lack its end.
pub proof fn lines_end_at_line_feeds(a: Seq<char>, rest: Seq<char>)
    requires
        lacks(a, '\n'),
        a.len() > 0 ==> a.last() != '\r',
    ensures
        lines_of(a + seq!['\n'] + rest) == seq![a] + lines_of(rest),
        lines_of(a + seq!['\r', '\n'] + rest) == seq![a] + lines_of(rest),
        a.len() > 0 ==> lines_of(a) == seq![a],
        a.len() == 0 ==> lines_of(a).len() == 0,
{
    let s = a + seq!['\n'] + rest;
    lemma_find_first(a, '\n', rest);
    assert(s.take(a.len() as int) =~= a);
    assert(s.skip(a.len() as int + 1) =~= rest);
    let b = a.push('\r');
    let t = b + seq!['\n'] + rest;
    assert(a + seq!['\r', '\n'] + rest =~= t);
    lemma_find_first(b, '\n', rest);
    assert(t.take(b.len() as int) =~= b);
    assert(b.drop_last() =~= a);
    assert(t.skip(b.len() as int + 1) =~= rest);
}

/// The first word stands between whitespace; whitespace alone holds none.
pub proof fn the_first_word_stands_between_whitespace(a: Seq<char>, w: Seq<char>, b: Seq<char>)
    requires
        all_white(a),
        w.len() > 0,
        forall|i: int| 0 <= i < w.len() ==> !is_white(#[trigger] w[i]),
        b.len() > 0 ==> is_white(b[0]),
    ensures
        first_word(a + w + b) == Some(w),
        first_word(a) is None,
{
    assert(a + w + b =~= a + (w + b));
    assert((w + b)[0] == w[0]);
    lemma_skip_front(a, w + b, white());
    lemma_skip_front(w, b, |c: char| !is_white(c));
    assert((w + b).take(w.len() as int) =~= w);
    lemma_skip_front(a, Seq::empty(), white());
    assert(a + Seq::empty() =~= a);
}

/// A prefix and a suffix come off where they are there.
pub proof fn affixes_come_off(p: Seq<char>, s: Seq<char>)
    ensures
        stripped_prefix(p + s, p) == Some(s),
        stripped_suffix(s + p, p) == Some(s),
        stripped_prefix(s, p) matches Some(rest) ==> s == p + rest,
        stripped_suffix(s, p) matches Some(rest) ==> s == rest + p,
{
    assert((p + s).subrange(0, p.len() as int) =~= p);
    assert((p + s).skip(p.len() as int) =~= s);
    assert((s + p).subrange(s.len() as int, s.len() as int + p.len()) =~= p);
    assert((s + p).take(s.len() as int) =~= s);
    if p.is_prefix_of(s) {
        assert(s =~= p + s.skip(p.len() as int));
    }
    if p.is_suffix_of(s) {
        assert(s =~= s.take(s.len() - p.len()) + p);
    }
}

/// Joined texts stand one behind the other, with one separator between neighbours and none
/// at the ends.
pub proof fn joining_puts_separators_between(
    parts: Seq<Seq<char>>,
    last: Seq<char>,
    sep: Seq<char>,
)
    ensures
        joined(Seq::empty(), sep).len() == 0,
        joined(seq![last], sep) == last,
        parts.len() > 0 ==> joined(parts.push(last), sep) == joined(parts, sep) + sep + last,
{
    assert(parts.push(last).drop_last() =~= parts);
}

/// Lowering moves the letters `A` to `Z` by 32 places and leaves every other character.
pub proof fn lowering_moves_capitals(s: Seq<char>, i: int)
    requires
        0 <= i < s.len(),
    ensures
        lowered(s).len() == s.len(),
        'A' <= s[i] <= 'Z' ==> lowered(s)[i] as u32 == s[i] as u32 + 32,
        !('A' <= s[i] <= 'Z') ==> lowered(s)[i] == s[i],
{
}

/// Appending a digit to a number's decimal form multiplies the number by ten and adds the
/// digit; a single digit is the character that many places behind `0`.
pub proof fn decimals_grow_digit_by_digit(n: nat, d: nat)
    requires
        d < 10,
    ensures
        digit_char(d) as u32 == 48 + d,
        decimal(d) == seq![digit_char(d)],
        n > 0 ==> decimal(10 * n + d) == decimal(n).push(digit_char(d)),
        whole_number(decimal(n)) == Some(n),
        whole_number(seq!['+'] + decimal(n)) == Some(n),
        firm_ends(decimal(n)),
{
    lemma_decimal(n);
    let s = decimal(n);
    assert(is_digit(s[0]));
    assert(is_digit(s[s.len() - 1]));
    assert((seq!['+'] + s).skip(1) =~= s);
}

/// A text reads as a number only where it is digits behind an optional plus sign.
pub proof fn only_digits_read_as_numbers(s: Seq<char>, i: int)
    requires
        0 <= i < s.len(),
        !is_digit(s[i]),
        i > 0 || s[0] != '+',
    ensures
        whole_number(s) is None,
{
    let d = without_plus(s);
    if s[0] == '+' {
        assert(d[i - 1] == s[i]);
    } else {
        assert(d[i] == s[i]);
    }
}

/// Texts are compared at the first place where they differ, and a text comes before those
/// that it begins.
pub proof fn texts_compare_at_their_first_difference(
    p: Seq<char>,
    x: char,
    a: Seq<char>,
    y: char,
    b: Seq<char>,
)
    requires
        x != y,
    ensures
        text_le(p + seq![x] + a, p + seq![y] + b) <==> x < y,
        text_le(p, p + a),
        !text_le(p + seq![x] + a, p),
    decreases p.len(),
{
    let s = p + seq![x] + a;
    let t = p + seq![y] + b;
    if p.len() == 0 {
        assert(s[0] == x && t[0] == y);
    } else {
        let q = p.skip(1);
        texts_compare_at_their_first_difference(q, x, a, y, b);
        assert(s[0] == p[0] && t[0] == p[0] && (p + a)[0] == p[0]);
        assert(s.skip(1) =~= q + seq![x] + a);
        assert(t.skip(1) =~= q + seq![y] + b);
        assert((p + a).skip(1) =~= q + a);
    }
}

/// The contents of texts, one by one or where they are there, are theirs.
pub proof fn contents_of_texts_are_theirs(ts: Seq<String>, t: String, s: &str, i: int)
    ensures
        texts(ts).len() == ts.len(),
        0 <= i < ts.len() ==> texts(ts)[i] == ts[i]@,
        opt_text(Some(t)) == Some(t@) && opt_text(None) is None,
        opt_str(Some(s)) == Some(s@) && opt_str(None) is None,
{
}

} // verus!
