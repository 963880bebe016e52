//! Character-sequence primitives that the definition grammar is built from:
//! white space, lines, tokens and decimal numbers.

use vstd::prelude::*;

verus! {

/// Whether `c` is white space: one of the code points U+0009..U+000D, U+0020,
/// U+0085, U+00A0, U+1680, U+2000..U+200A, U+2028, U+2029, U+202F, U+205F and
/// U+3000.
pub open spec fn is_whitespace(c: char) -> bool {
    ||| '\u{9}' <= c <= '\u{d}'
    ||| c == ' '
    ||| c == '\u{85}'
    ||| c == '\u{a0}'
    ||| c == '\u{1680}'
    ||| '\u{2000}' <= c <= '\u{200a}'
    ||| c == '\u{2028}'
    ||| c == '\u{2029}'
    ||| c == '\u{202f}'
    ||| c == '\u{205f}'
    ||| c == '\u{3000}'
}

/// Returns whether `c` is white space.
pub fn is_space(c: char) -> (b: bool)
    ensures
        b == is_whitespace(c),
{
    ('\u{9}' <= c && c <= '\u{d}') || c == ' ' || c == '\u{85}' || c == '\u{a0}' || c == '\u{1680}'
        || ('\u{2000}' <= c && c <= '\u{200a}') || c == '\u{2028}' || c == '\u{2029}' || c
        == '\u{202f}' || c == '\u{205f}' || c == '\u{3000}'
}

/// Whether `c` is one of the digits `0` to `9`.
pub open spec fn is_digit(c: char) -> bool {
    '0' <= c <= '9'
}

/// The value of the digit `c`.
pub open spec fn digit_value(c: char) -> nat {
    match c {
        '1' => 1,
        '2' => 2,
        '3' => 3,
        '4' => 4,
        '5' => 5,
        '6' => 6,
        '7' => 7,
        '8' => 8,
        '9' => 9,
        _ => 0,
    }
}

/// The digit that denotes `d`, for `d` below ten.
pub open spec fn digit_char(d: nat) -> char {
    if d == 1 {
        '1'
    } else if d == 2 {
        '2'
    } else if d == 3 {
        '3'
    } else if d == 4 {
        '4'
    } else if d == 5 {
        '5'
    } else if d == 6 {
        '6'
    } else if d == 7 {
        '7'
    } else if d == 8 {
        '8'
    } else if d == 9 {
        '9'
    } else {
        '0'
    }
}

/// The length of the longest prefix of `s` all of whose characters satisfy `p`.
pub open spec fn prefix_len(s: Seq<char>, p: spec_fn(char) -> bool) -> nat
    decreases s.len(),
{
    if s.len() > 0 && p(s[0]) {
        1 + prefix_len(s.drop_first(), p)
    } else {
        0
    }
}

/// `prefix_len` stays within the sequence, every character before it
/// satisfies `p`, and the character at it, if there is one, does not.
pub proof fn lemma_prefix_len(s: Seq<char>, p: spec_fn(char) -> bool)
    ensures
        prefix_len(s, p) <= s.len(),
        forall|j: int| 0 <= j < prefix_len(s, p) ==> p(#[trigger] s[j]),
        prefix_len(s, p) < s.len() ==> !p(s[prefix_len(s, p) as int]),
    decreases s.len(),
{
    if s.len() > 0 && p(s[0]) {
        let rest = s.drop_first();
        lemma_prefix_len(rest, p);
        assert forall|j: int| 0 <= j < prefix_len(s, p) implies p(#[trigger] s[j]) by {
            if j > 0 {
                assert(rest[j - 1] == s[j]);
            }
        }
        if prefix_len(s, p) < s.len() {
            assert(rest[prefix_len(rest, p) as int] == s[prefix_len(s, p) as int]);
        }
    }
}

/// The only index with the properties that `lemma_prefix_len` states is
/// `prefix_len` itself.
pub proof fn lemma_prefix_len_unique(s: Seq<char>, p: spec_fn(char) -> bool, k: int)
    requires
        0 <= k <= s.len(),
        forall|j: int| 0 <= j < k ==> p(#[trigger] s[j]),
        k < s.len() ==> !p(s[k]),
    ensures
        prefix_len(s, p) == k,
{
    lemma_prefix_len(s, p);
    let n = prefix_len(s, p) as int;
    if n < k {
        assert(p(s[n]));
    } else if k < n {
        assert(p(s[k]));
    }
}

/// The predicate "is not a line feed".
pub open spec fn not_newline() -> spec_fn(char) -> bool {
    |c: char| c != '\n'
}

/// The predicate "is white space".
pub open spec fn whitespace() -> spec_fn(char) -> bool {
    |c: char| is_whitespace(c)
}

/// The predicate "is not white space".
pub open spec fn not_whitespace() -> spec_fn(char) -> bool {
    |c: char| !is_whitespace(c)
}

/// `line` without one trailing carriage return.
pub open spec fn strip_cr(line: Seq<char>) -> Seq<char> {
    if line.len() > 0 && line.last() == '\r' {
        line.drop_last()
    } else {
        line
    }
}

/// The lines of `s`. A line ends at a line feed; a carriage return directly
/// before that line feed belongs to the line ending. What follows the last
/// line feed is a line of its own unless it is empty.
pub open spec fn lines(s: Seq<char>) -> Seq<Seq<char>>
    decreases s.len(),
{
    if s.len() == 0 {
        Seq::empty()
    } else {
        let n = prefix_len(s, not_newline()) as int;
        if n >= s.len() {
            seq![s]
        } else {
            seq![strip_cr(s.subrange(0, n))] + lines(s.subrange(n + 1, s.len() as int))
        }
    }
}

/// The tokens of `s`: its maximal runs of characters that are not white space.
pub open spec fn tokens(s: Seq<char>) -> Seq<Seq<char>>
    decreases s.len(),
{
    let a = prefix_len(s, whitespace()) as int;
    if a >= s.len() {
        Seq::empty()
    } else {
        let rest = s.subrange(a, s.len() as int);
        let b = prefix_len(rest, not_whitespace()) as int;
        if 0 < b <= rest.len() {
            seq![rest.subrange(0, b)] + tokens(rest.subrange(b, rest.len() as int))
        } else {
            Seq::empty()
        }
    }
}

/// The number that a sequence of digits denotes in base ten.
pub open spec fn digits_value(s: Seq<char>) -> nat
    decreases s.len(),
{
    if s.len() == 0 {
        0
    } else {
        digits_value(s.drop_last()) * 10 + digit_value(s.last())
    }
}

/// Whether every character of `s` is a digit.
pub open spec fn all_digits(s: Seq<char>) -> bool {
    forall|i: int| 0 <= i < s.len() ==> is_digit(#[trigger] s[i])
}

/// The number below 256 that `s` denotes: an optional `+`, then one or more
/// digits. Anything else denotes no number.
pub open spec fn parse_u8(s: Seq<char>) -> Option<u8> {
    let body = if s.len() > 0 && s[0] == '+' {
        s.drop_first()
    } else {
        s
    };
    if body.len() > 0 && all_digits(body) && digits_value(body) <= 255 {
        Some(digits_value(body) as u8)
    } else {
        None
    }
}

/// The digits of `n` in base ten, without leading zeros.
pub open spec fn decimal(n: nat) -> Seq<char>
    decreases n,
{
    if n < 10 {
        seq![digit_char(n)]
    } else {
        decimal(n / 10).push(digit_char(n % 10))
    }
}

/// The view of each element of `v`, in order.
pub open spec fn views(v: Seq<Vec<char>>) -> Seq<Seq<char>> {
    v.map_values(|l: Vec<char>| l@)
}

/// Returns the characters of `s`.
pub fn to_chars(s: &str) -> (v: Vec<char>)
    ensures
        v@ == s@,
{
    let mut v: Vec<char> = Vec::new();
    for c in it: s.chars()
        invariant
            v@ == it.seq().take(it.index()),
            it.seq() == s@,
    {
        v.push(c);
    }
    v
}

/// Returns the characters of `v` from index `from` up to, not including, `to`.
pub fn slice_chars(v: &Vec<char>, from: usize, to: usize) -> (r: Vec<char>)
    requires
        from <= to <= v.len(),
    ensures
        r@ == v@.subrange(from as int, to as int),
{
    let mut r: Vec<char> = Vec::new();
    let mut i: usize = from;
    while i < to
        invariant
            from <= i <= to <= v.len(),
            r@ == v@.subrange(from as int, i as int),
        decreases to - i,
    {
        r.push(v[i]);
        i += 1;
    }
    r
}

/// Returns the lines of `text`.
pub fn split_lines(text: &Vec<char>) -> (out: Vec<Vec<char>>)
    ensures
        views(out@) == lines(text@),
{
    let n = text.len();
    let mut out: Vec<Vec<char>> = Vec::new();
    let mut pos: usize = 0;
    assert(text@.subrange(0, n as int) == text@);
    while pos < n
        invariant
            n == text.len(),
            pos <= n,
            lines(text@) == views(out@) + lines(text@.subrange(pos as int, n as int)),
        decreases n - pos,
    {
        let ghost rest = text@.subrange(pos as int, n as int);
        let mut end: usize = pos;
        while end < n && text[end] != '\n'
            invariant
                n == text.len(),
                pos <= end <= n,
                forall|j: int| pos <= j < end ==> text@[j] != '\n',
            decreases n - end,
        {
            end += 1;
        }
        proof {
            lemma_prefix_len_unique(rest, not_newline(), end - pos);
        }
        let ghost before = views(out@);
        if end == n {
            let line = slice_chars(text, pos, n);
            out.push(line);
            pos = n;
            assert(lines(text@.subrange(n as int, n as int)) == Seq::<Seq<char>>::empty());
            assert(views(out@) == before + seq![rest]);
        } else {
            let mut stop: usize = end;
            if stop > pos && text[stop - 1] == '\r' {
                stop -= 1;
            }
            let line = slice_chars(text, pos, stop);
            assert(rest.subrange(0, end - pos) == text@.subrange(pos as int, end as int));
            assert(line@ == strip_cr(rest.subrange(0, end - pos)));
            assert(rest.subrange(end - pos + 1, rest.len() as int) == text@.subrange(
                end + 1,
                n as int,
            ));
            out.push(line);
            pos = end + 1;
            assert(views(out@) == before + seq![line@]);
        }
    }
    assert(lines(text@.subrange(n as int, n as int)) == Seq::<Seq<char>>::empty());
    out
}

/// Returns the tokens of `line`.
pub fn split_tokens(line: &Vec<char>) -> (out: Vec<Vec<char>>)
    ensures
        views(out@) == tokens(line@),
{
    let n = line.len();
    let mut out: Vec<Vec<char>> = Vec::new();
    let mut pos: usize = 0;
    assert(line@.subrange(0, n as int) == line@);
    loop
        invariant
            n == line.len(),
            pos <= n,
            tokens(line@) == views(out@) + tokens(line@.subrange(pos as int, n as int)),
        ensures
            tokens(line@) == views(out@),
        decreases n - pos,
    {
        let ghost s = line@.subrange(pos as int, n as int);
        let mut start: usize = pos;
        while start < n && is_space(line[start])
            invariant
                n == line.len(),
                pos <= start <= n,
                forall|j: int| pos <= j < start ==> is_whitespace(line@[j]),
            decreases n - start,
        {
            start += 1;
        }
        proof {
            lemma_prefix_len_unique(s, whitespace(), start - pos);
        }
        if start == n {
            break ;
        }
        let ghost rest = s.subrange(start - pos, s.len() as int);
        assert(rest == line@.subrange(start as int, n as int));
        let mut end: usize = start + 1;
        while end < n && !is_space(line[end])
            invariant
                n == line.len(),
                start < end <= n,
                forall|j: int| start <= j < end ==> !is_whitespace(line@[j]),
            decreases n - end,
        {
            end += 1;
        }
        proof {
            lemma_prefix_len_unique(rest, not_whitespace(), end - start);
        }
        let token = slice_chars(line, start, end);
        assert(token@ == rest.subrange(0, end - start));
        assert(rest.subrange(end - start, rest.len() as int) == line@.subrange(
            end as int,
            n as int,
        ));
        let ghost before = views(out@);
        out.push(token);
        assert(views(out@) == before + seq![token@]);
        pos = end;
    }
    out
}

/// No token is empty, and no token holds white space.
pub proof fn lemma_tokens_are_words(s: Seq<char>)
    ensures
        forall|i: int| 0 <= i < tokens(s).len() ==> (#[trigger] tokens(s)[i]).len() > 0,
        forall|i: int, j: int|
            0 <= i < tokens(s).len() && 0 <= j < tokens(s)[i].len() ==> !is_whitespace(
                #[trigger] tokens(s)[i][j],
            ),
    decreases s.len(),
{
    let a = prefix_len(s, whitespace()) as int;
    lemma_prefix_len(s, whitespace());
    if a < s.len() {
        let rest = s.subrange(a, s.len() as int);
        let b = prefix_len(rest, not_whitespace()) as int;
        lemma_prefix_len(rest, not_whitespace());
        if 0 < b <= rest.len() {
            let first = rest.subrange(0, b);
            let more = rest.subrange(b, rest.len() as int);
            lemma_tokens_are_words(more);
            let all = tokens(s);
            assert(all == seq![first] + tokens(more));
            assert forall|i: int| 0 <= i < all.len() implies (#[trigger] all[i]).len() > 0 by {
                if i > 0 {
                    assert(all[i] == tokens(more)[i - 1]);
                }
            }
            assert forall|i: int, j: int|
                0 <= i < all.len() && 0 <= j < all[i].len() implies !is_whitespace(
                #[trigger] all[i][j],
            ) by {
                if i > 0 {
                    assert(all[i] == tokens(more)[i - 1]);
                } else {
                    assert(first[j] == rest[j]);
                    assert(not_whitespace()(rest[j]));
                }
            }
        }
    }
}

/// A text that begins with a line without line feed, followed by a line
/// feed, has that line, without a trailing carriage return, as its first line;
/// its other lines are those of what follows the line feed.
pub proof fn lemma_lines_cons(line: Seq<char>, rest: Seq<char>)
    requires
        forall|i: int| 0 <= i < line.len() ==> line[i] != '\n',
    ensures
        lines(line + seq!['\n'] + rest) == seq![strip_cr(line)] + lines(rest),
{
    let s = line + seq!['\n'] + rest;
    let n = line.len() as int;
    assert(s[n] == '\n');
    assert forall|j: int| 0 <= j < n implies not_newline()(#[trigger] s[j]) by {
        assert(s[j] == line[j]);
    }
    lemma_prefix_len_unique(s, not_newline(), n);
    assert(s.subrange(0, n) == line);
    assert(s.subrange(n + 1, s.len() as int) == rest);
}

/// A text that begins with a token, followed by nothing or by white space,
/// has that token as its first token; its other tokens are those of what
/// follows.
pub proof fn lemma_tokens_cons(token: Seq<char>, rest: Seq<char>)
    requires
        token.len() > 0,
        forall|i: int| 0 <= i < token.len() ==> !is_whitespace(#[trigger] token[i]),
        rest.len() == 0 || is_whitespace(rest[0]),
    ensures
        tokens(token + rest) == seq![token] + tokens(rest),
{
    let s = token + rest;
    let n = token.len() as int;
    assert(s[0] == token[0]);
    lemma_prefix_len_unique(s, whitespace(), 0);
    assert(s.subrange(0, s.len() as int) == s);
    assert forall|j: int| 0 <= j < n implies not_whitespace()(#[trigger] s[j]) by {
        assert(s[j] == token[j]);
    }
    if n < s.len() {
        assert(s[n] == rest[0]);
    }
    lemma_prefix_len_unique(s, not_whitespace(), n);
    assert(s.subrange(0, n) == token);
    assert(s.subrange(n, s.len() as int) == rest);
}

/// White space at the beginning of a text does not change its tokens.
pub proof fn lemma_tokens_skip(s: Seq<char>)
    requires
        s.len() > 0,
        is_whitespace(s[0]),
    ensures
        tokens(s) == tokens(s.drop_first()),
{
    let t = s.drop_first();
    let a = prefix_len(s, whitespace()) as int;
    let b = prefix_len(t, whitespace()) as int;
    assert(whitespace()(s[0]));
    assert(a == b + 1);
    lemma_prefix_len(s, whitespace());
    lemma_prefix_len(t, whitespace());
    if a < s.len() {
        assert(s.subrange(a, s.len() as int) == t.subrange(b, t.len() as int));
    }
}

/// A token followed by a space and more text is the first token of the
/// whole; the other tokens are those of the text after the space.
pub proof fn lemma_tokens_step(token: Seq<char>, rest: Seq<char>)
    requires
        token.len() > 0,
        forall|i: int| 0 <= i < token.len() ==> !is_whitespace(#[trigger] token[i]),
    ensures
        tokens(token + seq![' '] + rest) == seq![token] + tokens(rest),
{
    let tail = seq![' '] + rest;
    assert(token + seq![' '] + rest == token + tail);
    assert(tail[0] == ' ');
    lemma_tokens_cons(token, tail);
    lemma_tokens_skip(tail);
    assert(tail.drop_first() == rest);
}

/// A text that is one token has that token alone.
pub proof fn lemma_tokens_one(token: Seq<char>)
    requires
        token.len() > 0,
        forall|i: int| 0 <= i < token.len() ==> !is_whitespace(#[trigger] token[i]),
    ensures
        tokens(token) == seq![token],
{
    let none = Seq::<char>::empty();
    lemma_tokens_cons(token, none);
    assert(token + none == token);
    assert(tokens(none) == Seq::<Seq<char>>::empty());
    assert(seq![token] + Seq::<Seq<char>>::empty() == seq![token]);
}

/// The digits of a number are digits, there is at least one of them, and
/// they denote the number.
pub proof fn lemma_decimal(n: nat)
    ensures
        decimal(n).len() > 0,
        all_digits(decimal(n)),
        digits_value(decimal(n)) == n,
    decreases n,
{
    if n < 10 {
        let s = decimal(n);
        assert(s.drop_last() == Seq::<char>::empty());
        assert(digits_value(s.drop_last()) == 0);
        assert(is_digit(s[0]));
    } else {
        lemma_decimal(n / 10);
        let s = decimal(n);
        assert(s.drop_last() == decimal(n / 10));
        assert(is_digit(digit_char(n % 10)));
        assert forall|i: int| 0 <= i < s.len() implies is_digit(#[trigger] s[i]) by {
            if i < s.len() - 1 {
                assert(s[i] == decimal(n / 10)[i]);
            }
        }
    }
}

/// The digits of a number below 256 are read back as that number.
pub proof fn lemma_parse_decimal(n: u8)
    ensures
        parse_u8(decimal(n as nat)) == Some(n),
{
    lemma_decimal(n as nat);
    assert(is_digit(decimal(n as nat)[0]));
}

/// `String::push` of the standard library, which appends one character to
/// the end of the string and changes nothing else.
pub assume_specification[ String::push ](s: &mut String, ch: char)
    ensures
        final(s)@ == old(s)@.push(ch),
;

/// Returns the number below 256 that `s` denotes, if it denotes one.
pub fn read_u8(s: &Vec<char>) -> (r: Option<u8>)
    ensures
        r == parse_u8(s@),
{
    let n = s.len();
    let start: usize = if n > 0 && s[0] == '+' {
        1
    } else {
        0
    };
    let ghost body = s@.subrange(start as int, n as int);
    assert(body == if s@.len() > 0 && s@[0] == '+' {
        s@.drop_first()
    } else {
        s@
    });
    if start == n {
        return None;
    }
    let mut i: usize = start;
    let mut acc: u32 = 0;
    let mut over: bool = false;
    while i < n
        invariant
            n == s.len(),
            start <= i <= n,
            body == s@.subrange(start as int, n as int),
            body == if s@.len() > 0 && s@[0] == '+' {
                s@.drop_first()
            } else {
                s@
            },
            all_digits(body.take(i - start)),
            !over ==> acc == digits_value(body.take(i - start)) && acc <= 255,
            over ==> digits_value(body.take(i - start)) > 255,
        decreases n - i,
    {
        let c: char = s[i];
        assert(c == body[i - start]);
        if !('0' <= c && c <= '9') {
            assert(!is_digit(body[i - start]));
            return None;
        }
        let d: u32 = digit_of(c);
        let ghost next = body.take(i - start + 1);
        assert(next.drop_last() == body.take(i - start));
        assert(next.last() == s@[i as int]);
        assert forall|j: int| 0 <= j < next.len() implies is_digit(#[trigger] next[j]) by {
            if j < i - start {
                assert(body.take(i - start)[j] == next[j]);
            }
        }
        if !over {
            let v: u32 = acc * 10 + d;
            if v > 255 {
                over = true;
            } else {
                acc = v;
            }
        }
        i += 1;
    }
    assert(body.take(n - start) == body);
    if over {
        None
    } else {
        Some(acc as u8)
    }
}

/// Returns the value of the digit `c`.
pub fn digit_of(c: char) -> (d: u32)
    ensures
        d == digit_value(c),
        d <= 9,
{
    match c {
        '1' => 1,
        '2' => 2,
        '3' => 3,
        '4' => 4,
        '5' => 5,
        '6' => 6,
        '7' => 7,
        '8' => 8,
        '9' => 9,
        _ => 0,
    }
}

/// Returns the digit that denotes `d`, for `d` below ten.
pub fn digit(d: u8) -> (c: char)
    ensures
        c == digit_char(d as nat),
{
    match d {
        1 => '1',
        2 => '2',
        3 => '3',
        4 => '4',
        5 => '5',
        6 => '6',
        7 => '7',
        8 => '8',
        9 => '9',
        _ => '0',
    }
}

/// Appends the digits of `n` in base ten to `out`.
pub fn push_decimal(out: &mut String, n: u8)
    ensures
        final(out)@ == old(out)@ + decimal(n as nat),
{
    reveal_with_fuel(decimal, 3);
    if n >= 100 {
        out.push(digit(n / 100));
    }
    if n >= 10 {
        out.push(digit((n / 10) % 10));
    }
    out.push(digit(n % 10));
}

/// Appends the characters of `v` to `out`.
pub fn push_chars(out: &mut String, v: &Vec<char>)
    ensures
        final(out)@ == old(out)@ + v@,
{
    let mut i: usize = 0;
    while i < v.len()
        invariant
            i <= v.len(),
            out@ == old(out)@ + v@.take(i as int),
        decreases v.len() - i,
    {
        out.push(v[i]);
        assert(v@.take(i + 1) == v@.take(i as int).push(v@[i as int]));
        i += 1;
    }
    assert(v@.take(v.len() as int) == v@);
}

} // verus!
