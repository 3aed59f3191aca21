//! Text as sequences of characters: the small vocabulary in which the rest of
//! the library states what its strings are.

use vstd::prelude::*;

verus! {

/// `String::push` appends one character.
pub assume_specification[ String::push ](s: &mut String, c: char)
    ensures
        final(s)@ == old(s)@.push(c),
;

/// The characters with the Unicode `White_Space` property.
pub open spec fn is_white_space(c: char) -> bool {
    let n = c as int;
    ||| 0x09 <= n <= 0x0d
    ||| n == 0x20
    ||| n == 0x85
    ||| n == 0xa0
    ||| n == 0x1680
    ||| 0x2000 <= n <= 0x200a
    ||| n == 0x2028
    ||| n == 0x2029
    ||| n == 0x202f
    ||| n == 0x205f
    ||| n == 0x3000
}

pub open spec fn lower_char(c: char) -> char {
    if 'A' as int <= c as int <= 'Z' as int {
        (c as int + 32) as char
    } else {
        c
    }
}

pub open spec fn upper_char(c: char) -> char {
    if 'a' as int <= c as int <= 'z' as int {
        (c as int - 32) as char
    } else {
        c
    }
}

/// ASCII letters in lower case, every other character unchanged.
pub open spec fn lower(s: Seq<char>) -> Seq<char> {
    Seq::new(s.len(), |i: int| lower_char(s[i]))
}

/// ASCII letters in upper case, every other character unchanged.
pub open spec fn upper(s: Seq<char>) -> Seq<char> {
    Seq::new(s.len(), |i: int| upper_char(s[i]))
}

pub open spec fn has_prefix(s: Seq<char>, prefix: Seq<char>) -> bool {
    prefix.len() <= s.len() && s.take(prefix.len() as int) == prefix
}

/// `part` stands in `s` at position `at`.
pub open spec fn occurs_at(s: Seq<char>, part: Seq<char>, at: int) -> bool {
    0 <= at <= s.len() - part.len() && s.subrange(at, at + part.len()) == part
}

pub open spec fn contains_text(s: Seq<char>, part: Seq<char>) -> bool {
    exists|at: int| occurs_at(s, part, at)
}

pub open spec fn trim_start(s: Seq<char>) -> Seq<char>
    decreases s.len(),
{
    if s.len() > 0 && is_white_space(s[0]) {
        trim_start(s.drop_first())
    } else {
        s
    }
}

pub open spec fn trim_end(s: Seq<char>) -> Seq<char>
    decreases s.len(),
{
    if s.len() > 0 && is_white_space(s.last()) {
        trim_end(s.drop_last())
    } else {
        s
    }
}

pub open spec fn trim(s: Seq<char>) -> Seq<char> {
    trim_end(trim_start(s))
}

/// Position of the first `c` in `s`, or the length of `s`.
pub open spec fn first_index(s: Seq<char>, c: char) -> int
    decreases s.len(),
{
    if s.len() == 0 || s[0] == c {
        0
    } else {
        1 + first_index(s.drop_first(), c)
    }
}

/// A line without the carriage return that belongs to its line feed.
pub open spec fn without_cr(line: Seq<char>) -> Seq<char> {
    if line.len() > 0 && line.last() == '\r' {
        line.drop_last()
    } else {
        line
    }
}

/// The lines of `s`: each ends at a line feed, with the carriage return before
/// it if there is one, and the last may end with `s`.
pub open spec fn lines(s: Seq<char>) -> Seq<Seq<char>>
    decreases s.len(),
    via lines_shrink
{
    let n = first_index(s, '\n');
    if s.len() == 0 {
        Seq::empty()
    } else if n == s.len() {
        seq![s]
    } else {
        seq![without_cr(s.take(n))] + lines(s.skip(n + 1))
    }
}

#[via_fn]
proof fn lines_shrink(s: Seq<char>) {
    lemma_first_index(s, '\n');
}

/// The first run of characters that are not white space, if there is one.
pub open spec fn first_word(s: Seq<char>) -> Option<Seq<char>> {
    let t = trim_start(s);
    if t.len() == 0 {
        None
    } else {
        Some(t.take(word_len(t)))
    }
}

pub open spec fn word_len(s: Seq<char>) -> int
    decreases s.len(),
{
    if s.len() == 0 || is_white_space(s[0]) {
        0
    } else {
        1 + word_len(s.drop_first())
    }
}

/// What follows the last `c` in `s`, or all of `s` where there is none.
pub open spec fn after_last(s: Seq<char>, c: char) -> Seq<char>
    decreases s.len(),
{
    if s.len() == 0 || s.last() == c {
        Seq::empty()
    } else {
        after_last(s.drop_last(), c).push(s.last())
    }
}

/// The pieces of `list` with `sep` between each two.
pub open spec fn join(list: Seq<Seq<char>>, sep: Seq<char>) -> Seq<char>
    decreases list.len(),
{
    if list.len() == 0 {
        Seq::empty()
    } else if list.len() == 1 {
        list[0]
    } else {
        join(list.drop_last(), sep) + sep + list.last()
    }
}

pub open spec fn texts(v: Seq<String>) -> Seq<Seq<char>> {
    Seq::new(v.len(), |i: int| v[i]@)
}

pub open spec fn opt_text(s: Option<String>) -> Option<Seq<char>> {
    match s {
        Some(t) => Some(t@),
        None => None,
    }
}

pub open spec fn digit_char(d: int) -> char {
    (48 + d) as char
}

/// The decimal digits of `n`, without leading zeros.
pub open spec fn decimal(n: nat) -> Seq<char>
    decreases n,
{
    if n < 10 {
        seq![digit_char(n as int)]
    } else {
        decimal(n / 10).push(digit_char((n % 10) as int))
    }
}

pub open spec fn is_digit(c: char) -> bool {
    48 <= c as int <= 57
}

/// Why a text is not a `u32` in decimal.
#[derive(Debug, Clone, Copy, PartialEq, Eq, Structural)]
pub enum NumberFault {
    Empty,
    InvalidDigit,
    TooLarge,
}

/// The value of the digits in `s`, read from the left behind digits worth
/// `acc`; the leftmost fault decides.
pub open spec fn digits_value(s: Seq<char>, acc: int) -> Result<u32, NumberFault>
    decreases s.len(),
{
    if s.len() == 0 {
        Ok(acc as u32)
    } else if !is_digit(s[0]) {
        Err(NumberFault::InvalidDigit)
    } else if acc * 10 + (s[0] as int - 48) > u32::MAX {
        Err(NumberFault::TooLarge)
    } else {
        digits_value(s.drop_first(), acc * 10 + (s[0] as int - 48))
    }
}

/// A `u32` in decimal, with an optional plus sign.
pub open spec fn number(s: Seq<char>) -> Result<u32, NumberFault> {
    if s.len() == 0 {
        Err(NumberFault::Empty)
    } else if s[0] == '+' {
        if s.len() == 1 {
            Err(NumberFault::InvalidDigit)
        } else {
            digits_value(s.skip(1), 0)
        }
    } else {
        digits_value(s, 0)
    }
}

/// `a` stands before `b` in the order of code points, character by character.
pub open spec fn text_before(a: Seq<char>, b: Seq<char>) -> bool
    decreases a.len(),
{
    if b.len() == 0 {
        false
    } else if a.len() == 0 {
        true
    } else if a[0] == b[0] {
        text_before(a.drop_first(), b.drop_first())
    } else {
        (a[0] as int) < (b[0] as int)
    }
}

pub proof fn lemma_first_index(s: Seq<char>, c: char)
    ensures
        0 <= first_index(s, c) <= s.len(),
        first_index(s, c) < s.len() ==> s[first_index(s, c)] == c,
        forall|i: int| 0 <= i < first_index(s, c) ==> s[i] != c,
    decreases s.len(),
{
    if s.len() == 0 || s[0] == c {
    } else {
        lemma_first_index(s.drop_first(), c);
        assert forall|i: int| 0 <= i < first_index(s, c) implies s[i] != c by {
            if i > 0 {
                assert(s.drop_first()[i - 1] == s[i]);
            }
        }
    }
}

/// A position at which `c` stands, with no `c` before it, is the first one.
proof fn lemma_first_index_is(s: Seq<char>, c: char, n: int)
    requires
        0 <= n <= s.len(),
        n < s.len() ==> s[n] == c,
        forall|i: int| 0 <= i < n ==> s[i] != c,
    ensures
        first_index(s, c) == n,
{
    lemma_first_index(s, c);
}

proof fn lemma_word_len(s: Seq<char>, n: int)
    requires
        0 <= n <= s.len(),
        n < s.len() ==> is_white_space(s[n]),
        forall|i: int| 0 <= i < n ==> !is_white_space(s[i]),
    ensures
        word_len(s) == n,
    decreases s.len(),
{
    if n > 0 {
        assert forall|i: int| 0 <= i < n - 1 implies !is_white_space(s.drop_first()[i]) by {
            assert(s.drop_first()[i] == s[i + 1]);
        }
        if n < s.len() {
            assert(s.drop_first()[n - 1] == s[n]);
        }
        lemma_word_len(s.drop_first(), n - 1);
    }
}

/// White space up to `n` and none at `n`: that is where trimming stops.
proof fn lemma_trim_start(s: Seq<char>, n: int)
    requires
        0 <= n <= s.len(),
        n < s.len() ==> !is_white_space(s[n]),
        forall|i: int| 0 <= i < n ==> is_white_space(s[i]),
    ensures
        trim_start(s) == s.skip(n),
    decreases s.len(),
{
    if n > 0 {
        assert forall|i: int| 0 <= i < n - 1 implies is_white_space(s.drop_first()[i]) by {
            assert(s.drop_first()[i] == s[i + 1]);
        }
        if n < s.len() {
            assert(s.drop_first()[n - 1] == s[n]);
        }
        lemma_trim_start(s.drop_first(), n - 1);
        assert(s.drop_first().skip(n - 1) =~= s.skip(n));
    } else {
        assert(s.skip(0) =~= s);
    }
}

proof fn lemma_trim_end(s: Seq<char>, n: int)
    requires
        0 <= n <= s.len(),
        n > 0 ==> !is_white_space(s[n - 1]),
        forall|i: int| n <= i < s.len() ==> is_white_space(s[i]),
    ensures
        trim_end(s) == s.take(n),
    decreases s.len(),
{
    if n < s.len() {
        lemma_trim_end(s.drop_last(), n);
        assert(s.drop_last().take(n) =~= s.take(n));
    } else {
        assert(s.take(n) =~= s);
    }
}

proof fn lemma_after_last(s: Seq<char>, c: char, n: int)
    requires
        0 <= n <= s.len(),
        n > 0 ==> s[n - 1] == c,
        forall|i: int| n <= i < s.len() ==> s[i] != c,
    ensures
        after_last(s, c) == s.skip(n),
    decreases s.len(),
{
    if n < s.len() {
        lemma_after_last(s.drop_last(), c, n);
        assert(s.drop_last().skip(n).push(s.last()) =~= s.skip(n));
    } else {
        assert(s.skip(n) =~= Seq::<char>::empty());
    }
}

/// Every `u32` is read back from its decimal digits.
pub proof fn number_reads_decimal(n: u32)
    ensures
        number(decimal(n as nat)) == Ok::<u32, NumberFault>(n),
{
    lemma_decimal_digits(n as nat);
    let s = decimal(n as nat);
    assert(s + Seq::<char>::empty() =~= s);
    lemma_digits_of_decimal(n as nat, Seq::empty());
}

pub proof fn lemma_decimal_digits(n: nat)
    ensures
        decimal(n).len() > 0,
        forall|i: int| 0 <= i < decimal(n).len() ==> is_digit(#[trigger] decimal(n)[i]),
    decreases n,
{
    if n >= 10 {
        lemma_decimal_digits(n / 10);
    }
}

proof fn lemma_digits_of_decimal(n: nat, rest: Seq<char>)
    requires
        n <= u32::MAX,
    ensures
        digits_value(decimal(n) + rest, 0) == digits_value(rest, n as int),
    decreases n,
{
    let s = decimal(n) + rest;
    if n < 10 {
        assert(s.drop_first() =~= rest);
        assert(s[0] == digit_char(n as int));
    } else {
        let d = digit_char((n % 10) as int);
        assert(s =~= decimal(n / 10) + (seq![d] + rest));
        lemma_digits_of_decimal(n / 10, seq![d] + rest);
        assert((seq![d] + rest).drop_first() =~= rest);
        assert((n / 10) * 10 + n % 10 == n);
    }
}

/// Different numbers have different digits.
pub proof fn decimal_injective(a: nat, b: nat)
    requires
        decimal(a) == decimal(b),
    ensures
        a == b,
    decreases a,
{
    lemma_decimal_len(a);
    lemma_decimal_len(b);
    if a < 10 && b < 10 {
        assert(decimal(a)[0] == digit_char(a as int));
        assert(decimal(b)[0] == digit_char(b as int));
    } else if a >= 10 && b >= 10 {
        assert(decimal(a).drop_last() =~= decimal(a / 10));
        assert(decimal(b).drop_last() =~= decimal(b / 10));
        assert(decimal(a).last() == digit_char((a % 10) as int));
        assert(decimal(b).last() == digit_char((b % 10) as int));
        decimal_injective(a / 10, b / 10);
    }
}

proof fn lemma_decimal_len(n: nat)
    ensures
        decimal(n).len() >= 1,
        n >= 10 ==> decimal(n).len() >= 2,
    decreases n,
{
    if n >= 10 {
        lemma_decimal_len(n / 10);
    }
}

/// No text stands before itself.
pub proof fn text_before_irreflexive(a: Seq<char>)
    ensures
        !text_before(a, a),
    decreases a.len(),
{
    if a.len() > 0 {
        text_before_irreflexive(a.drop_first());
    }
}

pub proof fn text_before_transitive(a: Seq<char>, b: Seq<char>, c: Seq<char>)
    requires
        text_before(a, b),
        text_before(b, c),
    ensures
        text_before(a, c),
    decreases a.len(),
{
    if a.len() > 0 && a[0] == b[0] && b[0] == c[0] {
        text_before_transitive(a.drop_first(), b.drop_first(), c.drop_first());
    }
}

/// Of two different texts one stands before the other.
pub proof fn text_before_total(a: Seq<char>, b: Seq<char>)
    ensures
        a == b || text_before(a, b) || text_before(b, a),
    decreases a.len(),
{
    if a.len() > 0 && b.len() > 0 {
        if a[0] == b[0] {
            text_before_total(a.drop_first(), b.drop_first());
            if a.drop_first() == b.drop_first() {
                assert(a =~= seq![a[0]] + a.drop_first());
                assert(b =~= seq![b[0]] + b.drop_first());
            }
        }
    } else {
        assert(a.len() == 0 && b.len() == 0 ==> a =~= b);
    }
}

pub fn to_chars(s: &str) -> (r: Vec<char>)
    ensures
        r@ == s@,
{
    let mut r: Vec<char> = Vec::new();
    for c in it: s.chars()
        invariant
            r@ == s@.take(it.index()),
            it.seq() == s@,
    {
        r.push(c);
        assert(s@.take(it.index() + 1) =~= s@.take(it.index()).push(s@[it.index()]));
    }
    assert(s@.take(s@.len() as int) =~= s@);
    r
}

/// The characters from `from` up to `to` as a string.
pub fn from_chars(v: &Vec<char>, from: usize, to: usize) -> (r: String)
    requires
        from <= to <= v@.len(),
    ensures
        r@ == v@.subrange(from as int, to as int),
{
    let mut r = String::new();
    let mut i: usize = from;
    assert(v@.subrange(from as int, from as int) =~= Seq::<char>::empty());
    while i < to
        invariant
            from <= i <= to <= v@.len(),
            r@ == v@.subrange(from as int, i as int),
        decreases to - i,
    {
        r.push(v[i]);
        assert(v@.subrange(from as int, i + 1) =~= v@.subrange(from as int, i as int).push(
            v@[i as int],
        ));
        i = i + 1;
    }
    r
}

/// A copy of a borrowed text.
pub fn owned(s: &str) -> (r: String)
    ensures
        r@ == s@,
{
    let v = to_chars(s);
    let r = from_chars(&v, 0, v.len());
    assert(v@.subrange(0, v@.len() as int) =~= v@);
    r
}

pub fn push_text(out: &mut String, s: &str)
    ensures
        final(out)@ == old(out)@ + s@,
{
    let ghost before = out@;
    assert(before + s@.take(0) =~= before);
    for c in it: s.chars()
        invariant
            out@ == before + s@.take(it.index()),
            it.seq() == s@,
    {
        out.push(c);
        assert(s@.take(it.index() + 1) =~= s@.take(it.index()).push(s@[it.index()]));
        assert(before + s@.take(it.index() + 1) =~= (before + s@.take(it.index())).push(c));
    }
    assert(s@.take(s@.len() as int) =~= s@);
}

/// `a` followed by `b`.
pub fn cat(a: &str, b: &str) -> (r: String)
    ensures
        r@ == a@ + b@,
{
    let mut r = owned(a);
    push_text(&mut r, b);
    r
}

/// `a`, `b` and `c` one after another.
pub fn cat3(a: &str, b: &str, c: &str) -> (r: String)
    ensures
        r@ == a@ + b@ + c@,
{
    let mut r = cat(a, b);
    push_text(&mut r, c);
    r
}

pub fn text_eq(a: &str, b: &str) -> (r: bool)
    ensures
        r == (a@ == b@),
{
    let x = to_chars(a);
    let y = to_chars(b);
    chars_match(&x, 0, &y) && x.len() == y.len()
}

/// Whether `part` stands in `s` at position `at`.
fn chars_match(s: &Vec<char>, at: usize, part: &Vec<char>) -> (r: bool)
    requires
        at <= s@.len(),
    ensures
        r == occurs_at(s@, part@, at as int),
        at == 0 && r && s@.len() == part@.len() ==> s@ == part@,
        s@ == part@ && at == 0 ==> r,
{
    let room: usize = s.len() - at;
    if room < part.len() {
        return false;
    }
    let mut i: usize = 0;
    while i < part.len()
        invariant
            i <= part@.len(),
            part@.len() <= room,
            at + room == s@.len(),
            at + room <= usize::MAX,
            forall|j: int| 0 <= j < i ==> s@[at + j] == part@[j],
        decreases part@.len() - i,
    {
        if s[at + i] != part[i] {
            assert(s@.subrange(at as int, at + part@.len())[i as int] == s@[at + i]);
            return false;
        }
        i = i + 1;
    }
    assert(s@.subrange(at as int, at + part@.len()) =~= part@);
    if at == 0 && s.len() == part.len() {
        assert(s@ =~= part@);
    }
    true
}

pub fn opt_eq(a: Option<&str>, b: &str) -> (r: bool)
    ensures
        r == (a matches Some(t) && t@ == b@),
{
    match a {
        Some(t) => text_eq(t, b),
        None => false,
    }
}

pub fn has_text_prefix(s: &str, prefix: &str) -> (r: bool)
    ensures
        r == has_prefix(s@, prefix@),
{
    let x = to_chars(s);
    let y = to_chars(prefix);
    assert(prefix@.len() <= s@.len() ==> s@.subrange(0, prefix@.len() as int) =~= s@.take(
        prefix@.len() as int,
    ));
    chars_match(&x, 0, &y)
}

/// What follows `prefix`, where `s` begins with it.
pub fn without_prefix(s: &str, prefix: &str) -> (r: Option<String>)
    ensures
        r is Some <==> has_prefix(s@, prefix@),
        r matches Some(t) ==> t@ == s@.skip(prefix@.len() as int),
{
    if has_text_prefix(s, prefix) {
        let x = to_chars(s);
        let y = to_chars(prefix);
        let r = from_chars(&x, y.len(), x.len());
        assert(s@.subrange(prefix@.len() as int, s@.len() as int) =~= s@.skip(prefix@.len() as int));
        Some(r)
    } else {
        None
    }
}

pub fn text_contains(s: &str, part: &str) -> (r: bool)
    ensures
        r == contains_text(s@, part@),
{
    let x = to_chars(s);
    let y = to_chars(part);
    if x.len() < y.len() {
        return false;
    }
    let last: usize = x.len() - y.len();
    let mut i: usize = 0;
    while i <= last
        invariant
            x@ == s@,
            y@ == part@,
            last == s@.len() - part@.len(),
            i <= last + 1,
            forall|at: int| 0 <= at < i ==> !occurs_at(s@, part@, at),
        decreases last + 1 - i,
    {
        if chars_match(&x, i, &y) {
            return true;
        }
        if i == last {
            return false;
        }
        i = i + 1;
    }
    false
}

pub fn to_lower(s: &str) -> (r: String)
    ensures
        r@ == lower(s@),
{
    let mut r = String::new();
    assert(lower(s@).take(0) =~= Seq::<char>::empty());
    for c in it: s.chars()
        invariant
            r@ == lower(s@).take(it.index()),
            it.seq() == s@,
    {
        let n: u32 = c as u32;
        if 65 <= n && n <= 90 {
            let low: u8 = (n + 32) as u8;
            r.push(low as char);
        } else {
            r.push(c);
        }
        assert(lower(s@).take(it.index() + 1) =~= lower(s@).take(it.index()).push(lower_char(c)));
    }
    assert(lower(s@).take(s@.len() as int) =~= lower(s@));
    r
}

pub fn to_upper(s: &str) -> (r: String)
    ensures
        r@ == upper(s@),
{
    let mut r = String::new();
    assert(upper(s@).take(0) =~= Seq::<char>::empty());
    for c in it: s.chars()
        invariant
            r@ == upper(s@).take(it.index()),
            it.seq() == s@,
    {
        let n: u32 = c as u32;
        if 97 <= n && n <= 122 {
            let up: u8 = (n - 32) as u8;
            r.push(up as char);
        } else {
            r.push(c);
        }
        assert(upper(s@).take(it.index() + 1) =~= upper(s@).take(it.index()).push(upper_char(c)));
    }
    assert(upper(s@).take(s@.len() as int) =~= upper(s@));
    r
}

fn code_point(c: char) -> (n: u32)
    ensures
        n as int == c as int,
{
    c as u32
}

pub fn white_space(c: char) -> (r: bool)
    ensures
        r == is_white_space(c),
{
    let n: u32 = c as u32;
    (0x09 <= n && n <= 0x0d) || n == 0x20 || n == 0x85 || n == 0xa0 || n == 0x1680 || (0x2000 <= n
        && n <= 0x200a) || n == 0x2028 || n == 0x2029 || n == 0x202f || n == 0x205f || n == 0x3000
}

/// How many characters of white space `v` begins with.
fn leading_space(v: &Vec<char>) -> (n: usize)
    ensures
        n <= v@.len(),
        trim_start(v@) == v@.skip(n as int),
        n < v@.len() ==> !is_white_space(v@[n as int]),
{
    let mut n: usize = 0;
    while n < v.len() && white_space(v[n])
        invariant
            n <= v@.len(),
            forall|i: int| 0 <= i < n ==> is_white_space(v@[i]),
        decreases v@.len() - n,
    {
        n = n + 1;
    }
    proof {
        lemma_trim_start(v@, n as int);
    }
    n
}

pub fn trimmed(s: &str) -> (r: String)
    ensures
        r@ == trim(s@),
{
    let v = to_chars(s);
    let from = leading_space(&v);
    let mut to: usize = v.len();
    while to > from && white_space(v[to - 1])
        invariant
            from <= to <= v@.len(),
            forall|i: int| to <= i < v@.len() ==> is_white_space(v@[i]),
        decreases to,
    {
        to = to - 1;
    }
    proof {
        let t = v@.skip(from as int);
        let n = to - from;
        assert forall|i: int| n <= i < t.len() implies is_white_space(t[i]) by {
            assert(t[i] == v@[i + from]);
        }
        lemma_trim_end(t, n);
        assert(t.take(n) =~= v@.subrange(from as int, to as int));
    }
    from_chars(&v, from, to)
}

pub fn split_lines(s: &str) -> (r: Vec<String>)
    ensures
        texts(r@) == lines(s@),
{
    let v = to_chars(s);
    let mut r: Vec<String> = Vec::new();
    let mut start: usize = 0;
    assert(v@.skip(0) =~= v@);
    assert(texts(r@) + lines(v@) =~= lines(v@));
    while start < v.len()
        invariant
            v@ == s@,
            start <= v@.len(),
            texts(r@) + lines(v@.skip(start as int)) == lines(s@),
        decreases v@.len() - start,
    {
        let ghost rest = v@.skip(start as int);
        let mut end: usize = start;
        while end < v.len() && v[end] != '\n'
            invariant
                start <= end <= v@.len(),
                forall|i: int| start <= i < end ==> v@[i] != '\n',
            decreases v@.len() - end,
        {
            end = end + 1;
        }
        let ghost n = end - start;
        proof {
            assert forall|i: int| 0 <= i < n implies rest[i] != '\n' by {
                assert(rest[i] == v@[start + i]);
            }
            if n < rest.len() {
                assert(rest[n] == v@[end as int]);
            }
            lemma_first_index_is(rest, '\n', n);
        }
        let ghost before = texts(r@);
        if end == v.len() {
            let line = from_chars(&v, start, end);
            assert(line@ =~= rest);
            r.push(line);
            assert(texts(r@) =~= before.push(rest));
            assert(before + lines(rest) =~= before.push(rest));
            assert(v@.skip(end as int) =~= Seq::<char>::empty());
            assert(texts(r@) + lines(v@.skip(end as int)) =~= texts(r@));
            start = end;
        } else {
            let cut: usize = if end > start && v[end - 1] == '\r' {
                end - 1
            } else {
                end
            };
            let line = from_chars(&v, start, cut);
            proof {
                let head = rest.take(n);
                if n > 0 {
                    assert(head.last() == v@[end - 1]);
                }
                assert(line@ =~= without_cr(head));
                assert(v@.skip(end + 1) =~= rest.skip(n + 1));
            }
            r.push(line);
            assert(texts(r@) =~= before.push(without_cr(rest.take(n))));
            assert(before + (seq![without_cr(rest.take(n))] + lines(rest.skip(n + 1)))
                =~= before.push(without_cr(rest.take(n))) + lines(rest.skip(n + 1)));
            start = end + 1;
        }
    }
    assert(v@.skip(start as int) =~= Seq::<char>::empty());
    assert(texts(r@) + Seq::<Seq<char>>::empty() =~= texts(r@));
    r
}

pub fn leading_word(s: &str) -> (r: Option<String>)
    ensures
        opt_text(r) == first_word(s@),
{
    let v = to_chars(s);
    let from = leading_space(&v);
    if from == v.len() {
        return None;
    }
    let mut to: usize = from;
    while to < v.len() && !white_space(v[to])
        invariant
            from <= to <= v@.len(),
            forall|i: int| from <= i < to ==> !is_white_space(v@[i]),
        decreases v@.len() - to,
    {
        to = to + 1;
    }
    proof {
        let t = v@.skip(from as int);
        let n = to - from;
        assert forall|i: int| 0 <= i < n implies !is_white_space(t[i]) by {
            assert(t[i] == v@[from + i]);
        }
        if n < t.len() {
            assert(t[n] == v@[to as int]);
        }
        lemma_word_len(t, n);
        assert(t.take(n) =~= v@.subrange(from as int, to as int));
    }
    Some(from_chars(&v, from, to))
}

pub fn tail_after_last(s: &str, c: char) -> (r: String)
    ensures
        r@ == after_last(s@, c),
{
    let v = to_chars(s);
    let mut n: usize = v.len();
    while n > 0 && v[n - 1] != c
        invariant
            n <= v@.len(),
            forall|i: int| n <= i < v@.len() ==> v@[i] != c,
        decreases n,
    {
        n = n - 1;
    }
    proof {
        lemma_after_last(v@, c, n as int);
        assert(v@.subrange(n as int, v@.len() as int) =~= v@.skip(n as int));
    }
    from_chars(&v, n, v.len())
}

pub fn joined(list: &Vec<String>, sep: &str) -> (r: String)
    ensures
        r@ == join(texts(list@), sep@),
{
    let mut r = String::new();
    let ghost all = texts(list@);
    let mut i: usize = 0;
    assert(all.take(0) =~= Seq::<Seq<char>>::empty());
    while i < list.len()
        invariant
            i <= list@.len(),
            all == texts(list@),
            r@ == join(all.take(i as int), sep@),
        decreases list@.len() - i,
    {
        let ghost head = all.take(i as int);
        let ghost next = all.take(i + 1);
        assert(next.drop_last() =~= head);
        assert(next.last() == list@[i as int]@);
        if i > 0 {
            push_text(&mut r, sep);
        } else {
            assert(r@ =~= Seq::<char>::empty());
            assert(Seq::<char>::empty() + list@[0]@ =~= list@[0]@);
        }
        push_text(&mut r, list[i].as_str());
        i = i + 1;
    }
    assert(all.take(all.len() as int) =~= all);
    r
}

pub fn push_decimal(out: &mut String, n: u64)
    ensures
        final(out)@ == old(out)@ + decimal(n as nat),
    decreases n,
{
    let d: u8 = (n % 10) as u8;
    if n >= 10 {
        push_decimal(out, n / 10);
    }
    out.push((48 + d) as char);
    assert(old(out)@ + decimal(n as nat) =~= out@);
}

pub fn decimal_text(n: u64) -> (r: String)
    ensures
        r@ == decimal(n as nat),
{
    let mut r = String::new();
    push_decimal(&mut r, n);
    assert(Seq::<char>::empty() + decimal(n as nat) =~= decimal(n as nat));
    r
}

pub fn parse_number(s: &str) -> (r: Result<u32, NumberFault>)
    ensures
        r == number(s@),
{
    let v = to_chars(s);
    if v.len() == 0 {
        return Err(NumberFault::Empty);
    }
    let mut i: usize = 0;
    if v[0] == '+' {
        if v.len() == 1 {
            return Err(NumberFault::InvalidDigit);
        }
        i = 1;
    }
    assert(v@.skip(0) =~= v@);
    let mut acc: u64 = 0;
    while i < v.len()
        invariant
            v@ == s@,
            i <= v@.len(),
            acc <= u32::MAX,
            number(s@) == digits_value(v@.skip(i as int), acc as int),
        decreases v@.len() - i,
    {
        let n: u32 = code_point(v[i]);
        let ghost rest = v@.skip(i as int);
        assert(rest[0] == v@[i as int]);
        assert(rest.drop_first() =~= v@.skip(i + 1));
        if n < 48 || n > 57 {
            return Err(NumberFault::InvalidDigit);
        }
        let next: u64 = acc * 10 + (n - 48) as u64;
        if next > 0xffff_ffff {
            return Err(NumberFault::TooLarge);
        }
        acc = next;
        i = i + 1;
    }
    Ok(acc as u32)
}

pub fn stands_before(a: &str, b: &str) -> (r: bool)
    ensures
        r == text_before(a@, b@),
{
    let x = to_chars(a);
    let y = to_chars(b);
    let mut i: usize = 0;
    assert(x@.skip(0) =~= x@);
    assert(y@.skip(0) =~= y@);
    while i < x.len() && i < y.len()
        invariant
            x@ == a@,
            y@ == b@,
            i <= x@.len(),
            i <= y@.len(),
            text_before(a@, b@) == text_before(x@.skip(i as int), y@.skip(i as int)),
        decreases x@.len() - i,
    {
        assert(x@.skip(i as int)[0] == x@[i as int]);
        assert(y@.skip(i as int)[0] == y@[i as int]);
        assert(x@.skip(i as int).drop_first() =~= x@.skip(i + 1));
        assert(y@.skip(i as int).drop_first() =~= y@.skip(i + 1));
        if x[i] != y[i] {
            return code_point(x[i]) < code_point(y[i]);
        }
        i = i + 1;
    }
    i == x.len() && i < y.len()
}

/// The reason as it is written in messages.
pub open spec fn fault_text(fault: NumberFault) -> Seq<char> {
    match fault {
        NumberFault::Empty => "cannot parse integer from empty string"@,
        NumberFault::InvalidDigit => "invalid digit found in string"@,
        NumberFault::TooLarge => "number too large to fit in target type"@,
    }
}

pub fn describe_fault(fault: NumberFault) -> (r: String)
    ensures
        r@ == fault_text(fault),
{
    match fault {
        NumberFault::Empty => owned("cannot parse integer from empty string"),
        NumberFault::InvalidDigit => owned("invalid digit found in string"),
        NumberFault::TooLarge => owned("number too large to fit in target type"),
    }
}

/// Changing the case changes the ASCII letters alone: every other character
/// stays, a letter keeps its place in the alphabet, and case is forgotten
/// whichever way it was changed before.
pub proof fn case_changes_letters_alone(s: Seq<char>, i: int)
    requires
        0 <= i < s.len(),
    ensures
        lower(s).len() == s.len(),
        upper(s).len() == s.len(),
        lower(upper(s)) == lower(s),
        upper(lower(s)) == upper(s),
        'A' <= s[i] <= 'Z' ==> lower(s)[i] as int - 'a' as int == s[i] as int - 'A' as int
            && upper(s)[i] == s[i],
        'a' <= s[i] <= 'z' ==> upper(s)[i] as int - 'A' as int == s[i] as int - 'a' as int
            && lower(s)[i] == s[i],
        !('A' <= s[i] <= 'Z') && !('a' <= s[i] <= 'z') ==> lower(s)[i] == s[i] && upper(s)[i]
            == s[i],
{
    assert(lower(upper(s)) =~= lower(s));
    assert(upper(lower(s)) =~= upper(s));
}

/// Among the ASCII characters the space and the five characters from the
/// tabulator to the carriage return are white space, and no others.
pub proof fn ascii_white_space(c: char)
    requires
        (c as int) < 128,
    ensures
        is_white_space(c) == (c == ' ' || '\t' <= c <= '\r'),
{
}

proof fn lemma_trim_before(a: Seq<char>, s: Seq<char>)
    requires
        forall|i: int| 0 <= i < a.len() ==> is_white_space(#[trigger] a[i]),
    ensures
        trim_start(a + s) == trim_start(s),
    decreases a.len(),
{
    if a.len() == 0 {
        assert(a + s =~= s);
    } else {
        assert((a + s)[0] == a[0]);
        assert((a + s).drop_first() =~= a.drop_first() + s);
        lemma_trim_before(a.drop_first(), s);
    }
}

proof fn lemma_trim_behind(s: Seq<char>, b: Seq<char>)
    requires
        forall|i: int| 0 <= i < b.len() ==> is_white_space(#[trigger] b[i]),
    ensures
        trim_end(s + b) == trim_end(s),
    decreases b.len(),
{
    if b.len() == 0 {
        assert(s + b =~= s);
    } else {
        assert((s + b).last() == b.last());
        assert((s + b).drop_last() =~= s + b.drop_last());
        lemma_trim_behind(s, b.drop_last());
    }
}

/// Trimming takes the white space from both ends of a text and nothing else, and
/// it leaves nothing of a text that is all white space.
pub proof fn trimming_takes_the_white_space_at_the_ends(
    a: Seq<char>,
    s: Seq<char>,
    b: Seq<char>,
)
    requires
        forall|i: int| 0 <= i < a.len() ==> is_white_space(#[trigger] a[i]),
        forall|i: int| 0 <= i < b.len() ==> is_white_space(#[trigger] b[i]),
        s.len() > 0 ==> !is_white_space(s[0]) && !is_white_space(s.last()),
    ensures
        trim(a + s + b) == s,
{
    assert(a + s + b =~= a + (s + b));
    lemma_trim_before(a, s + b);
    if s.len() > 0 {
        assert((s + b)[0] == s[0]);
        lemma_trim_behind(s, b);
    } else {
        assert(s + b =~= b);
        lemma_trim_before(b, Seq::empty());
        assert(b + Seq::<char>::empty() =~= b);
        assert(trim_start(b) =~= s);
    }
}

proof fn lemma_first_index_at(a: Seq<char>, c: char, rest: Seq<char>)
    requires
        !a.contains(c),
    ensures
        first_index(a + seq![c] + rest, c) == a.len(),
        first_index(a, c) == a.len(),
{
    let s = a + seq![c] + rest;
    lemma_first_index(s, c);
    lemma_first_index(a, c);
    let n = first_index(s, c);
    assert(s[a.len() as int] == c);
    if n < a.len() {
        assert(s[n] == a[n]);
        assert(a.contains(c));
    }
    if first_index(a, c) < a.len() {
        assert(a.contains(c));
    }
}

/// A text is read line by line: what stands before the first line feed, without
/// the one carriage return in front of it, is the first line, and what follows
/// the line feed is read in the same way. A text without a line feed is one
/// line, and an empty text is none.
pub proof fn lines_end_at_line_feeds(line: Seq<char>, rest: Seq<char>)
    requires
        !line.contains('\n'),
    ensures
        lines(line + seq!['\r', '\n'] + rest) == seq![line] + lines(rest),
        line.len() == 0 || line.last() != '\r' ==> lines(line + seq!['\n'] + rest) == seq![line]
            + lines(rest),
        line.len() > 0 ==> lines(line) == seq![line],
        lines(Seq::empty()) == Seq::<Seq<char>>::empty(),
{
    let cr = line.push('\r');
    assert(!cr.contains('\n')) by {
        if cr.contains('\n') {
            let i = cr.index_of('\n');
            if i < line.len() {
                assert(line[i] == '\n');
                assert(line.contains('\n'));
            }
        }
    }
    lemma_first_index_at(cr, '\n', rest);
    lemma_first_index_at(line, '\n', rest);
    let s = cr + seq!['\n'] + rest;
    assert(s =~= line + seq!['\r', '\n'] + rest);
    assert(s.take(cr.len() as int) =~= cr);
    assert(s.skip(cr.len() as int + 1) =~= rest);
    assert(cr.drop_last() =~= line);
    let t = line + seq!['\n'] + rest;
    assert(t.take(line.len() as int) =~= line);
    assert(t.skip(line.len() as int + 1) =~= rest);
}

proof fn lemma_word_before(w: Seq<char>, rest: Seq<char>)
    requires
        forall|i: int| 0 <= i < w.len() ==> !is_white_space(#[trigger] w[i]),
        rest.len() > 0 ==> is_white_space(rest[0]),
    ensures
        word_len(w + rest) == w.len(),
    decreases w.len(),
{
    if w.len() == 0 {
        assert(w + rest =~= rest);
    } else {
        assert((w + rest)[0] == w[0]);
        assert((w + rest).drop_first() =~= w.drop_first() + rest);
        lemma_word_before(w.drop_first(), rest);
    }
}

/// The first word of a text is its first run of characters that are not white
/// space, wherever it stands and whatever follows it; a text that is all white
/// space has none.
pub proof fn the_first_word_is_the_first_run(a: Seq<char>, w: Seq<char>, rest: Seq<char>)
    requires
        forall|i: int| 0 <= i < a.len() ==> is_white_space(#[trigger] a[i]),
        forall|i: int| 0 <= i < w.len() ==> !is_white_space(#[trigger] w[i]),
        rest.len() > 0 ==> is_white_space(rest[0]),
    ensures
        w.len() > 0 ==> first_word(a + w + rest) == Some(w),
        first_word(a) is None,
{
    assert(a + w + rest =~= a + (w + rest));
    lemma_trim_before(a, w + rest);
    lemma_trim_before(a, Seq::empty());
    assert(a + Seq::<char>::empty() =~= a);
    if w.len() > 0 {
        assert((w + rest)[0] == w[0]);
        lemma_word_before(w, rest);
        assert((w + rest).take(w.len() as int) =~= w);
    }
}

/// What follows the last `c` is what follows it whatever stands before, and a
/// text without `c` is taken whole.
pub proof fn the_tail_is_what_follows_the_last(a: Seq<char>, c: char, tail: Seq<char>)
    requires
        !tail.contains(c),
    ensures
        after_last(a + seq![c] + tail, c) == tail,
        after_last(tail, c) == tail,
    decreases tail.len(),
{
    let s = a + seq![c] + tail;
    if tail.len() == 0 {
        assert(s.last() == c);
    } else {
        let short = tail.drop_last();
        assert(!short.contains(c)) by {
            if short.contains(c) {
                let i = short.index_of(c);
                assert(tail[i] == c);
            }
        }
        assert(tail.last() != c) by {
            assert(tail.contains(tail[tail.len() - 1]));
        }
        the_tail_is_what_follows_the_last(a, c, short);
        assert(s.drop_last() =~= a + seq![c] + short);
        assert(s.last() == tail.last());
        assert(short.push(tail.last()) =~= tail);
    }
}

/// Pieces are joined in their order, with the separator between each two and
/// nowhere else.
pub proof fn joining_separates_the_pieces(list: Seq<Seq<char>>, piece: Seq<char>, sep: Seq<char>)
    ensures
        join(Seq::empty(), sep) == Seq::<char>::empty(),
        join(seq![piece], sep) == piece,
        list.len() > 0 ==> join(list.push(piece), sep) == join(list, sep) + sep + piece,
{
    assert(list.push(piece).drop_last() =~= list);
}

proof fn lemma_digits_push(s: Seq<char>, c: char, acc: int)
    requires
        0 <= acc <= u32::MAX,
    ensures
        digits_value(s, acc) matches Ok(v) ==> digits_value(s.push(c), acc) == digits_value(
            seq![c],
            v as int,
        ),
        digits_value(s, acc) matches Err(e) ==> digits_value(s.push(c), acc)
            == Err::<u32, NumberFault>(e),
    decreases s.len(),
{
    if s.len() == 0 {
        assert(s.push(c) =~= seq![c]);
    } else {
        assert(s.push(c)[0] == s[0]);
        assert(s.push(c).drop_first() =~= s.drop_first().push(c));
        let next = acc * 10 + (s[0] as int - 48);
        if is_digit(s[0]) && next <= u32::MAX {
            lemma_digits_push(s.drop_first(), c, next);
        }
    }
}

/// A number is read digit by digit: a digit behind a number is worth ten times
/// the number and itself, so long as that is a `u32`; any other character, and
/// an empty text, is a fault, and what is wrong first decides. A plus sign in
/// front of digits says nothing.
pub proof fn numbers_are_read_digit_by_digit(s: Seq<char>, c: char)
    requires
        s.len() > 0,
        s[0] != '+',
    ensures
        number(Seq::empty()) == Err::<u32, NumberFault>(NumberFault::Empty),
        number(seq!['+']) == Err::<u32, NumberFault>(NumberFault::InvalidDigit),
        number(seq!['+'] + s) == number(s),
        '0' <= c <= '9' ==> number(seq![c]) == Ok::<u32, NumberFault>((c as int - '0' as int) as u32),
        number(s) matches Ok(v) ==> ({
            let longer = v * 10 + (c as int - '0' as int);
            number(s.push(c)) == (if !('0' <= c <= '9') {
                Err(NumberFault::InvalidDigit)
            } else if longer <= u32::MAX {
                Ok(longer as u32)
            } else {
                Err(NumberFault::TooLarge)
            })
        }),
        number(s) matches Err(e) ==> number(s.push(c)) == Err::<u32, NumberFault>(e),
{
    assert((seq!['+'] + s).skip(1) =~= s);
    lemma_digits_push(s, c, 0);
    assert(s.push(c)[0] == s[0]);
    reveal_with_fuel(digits_value, 3);
    assert(seq![c].drop_first() =~= Seq::<char>::empty());
}

/// What is wrong with a text that is no number is told as the standard library
/// tells it.
pub proof fn faults_of_numbers_are_told_apart(a: NumberFault, b: NumberFault)
    ensures
        fault_text(NumberFault::Empty) == "cannot parse integer from empty string"@,
        fault_text(NumberFault::InvalidDigit) == "invalid digit found in string"@,
        fault_text(NumberFault::TooLarge) == "number too large to fit in target type"@,
        fault_text(a) == fault_text(b) ==> a == b,
{
    reveal_strlit("cannot parse integer from empty string");
    reveal_strlit("invalid digit found in string");
    reveal_strlit("number too large to fit in target type");
    assert(fault_text(NumberFault::Empty)[0] == 'c');
    assert(fault_text(NumberFault::InvalidDigit)[0] == 'i');
    assert(fault_text(NumberFault::TooLarge)[0] == 'n');
}

/// Of two texts, the first character in which they differ decides which stands
/// before the other; where there is none, the shorter does.
pub proof fn the_first_difference_decides(
    same: Seq<char>,
    a: Seq<char>,
    b: Seq<char>,
)
    requires
        a.len() > 0 && b.len() > 0 ==> a[0] != b[0],
    ensures
        text_before(same + a, same + b) == (b.len() > 0 && (a.len() == 0 || a[0] < b[0])),
    decreases same.len(),
{
    if same.len() == 0 {
        assert(same + a =~= a);
        assert(same + b =~= b);
    } else {
        assert((same + a)[0] == same[0]);
        assert((same + b)[0] == same[0]);
        assert((same + a).drop_first() =~= same.drop_first() + a);
        assert((same + b).drop_first() =~= same.drop_first() + b);
        the_first_difference_decides(same.drop_first(), a, b);
    }
}

/// A text contains a part exactly if it is made of something, the part and
/// something, and begins with a part exactly if it is made of the part and
/// something.
pub proof fn parts_are_found_wherever_they_stand(a: Seq<char>, part: Seq<char>, b: Seq<char>)
    ensures
        contains_text(a + part + b, part),
        has_prefix(part + b, part),
        has_prefix(a, part) ==> a == part + a.skip(part.len() as int),
        contains_text(a, part) ==> exists|x: Seq<char>, y: Seq<char>| a == #[trigger] (x + part + y),
{
    let s = a + part + b;
    assert(s.subrange(a.len() as int, a.len() as int + part.len()) =~= part);
    assert(occurs_at(s, part, a.len() as int));
    assert((part + b).take(part.len() as int) =~= part);
    if has_prefix(a, part) {
        assert(a =~= a.take(part.len() as int) + a.skip(part.len() as int));
    }
    if contains_text(a, part) {
        let at = choose|at: int| occurs_at(a, part, at);
        let x = a.take(at);
        let y = a.skip(at + part.len());
        assert(a =~= x + part + y);
    }
}

/// Beyond ASCII the white space is the next line, the spaces that do not break,
/// that of Ogham, those of the general punctuation with its two separators, the
/// mathematical one and the ideographic one.
pub proof fn other_white_space(c: char)
    requires
        (c as int) >= 128,
    ensures
        is_white_space(c) == (c == '\u{85}' || c == '\u{a0}' || c == '\u{1680}' || '\u{2000}' <= c
            <= '\u{200a}' || c == '\u{2028}' || c == '\u{2029}' || c == '\u{202f}' || c
            == '\u{205f}' || c == '\u{3000}'),
{
}

} // verus!
