//! Rendering of integers as text, and removal of indentation.

use vstd::prelude::*;
use vstd::string::*;

verus! {

/// `String::push` appends the character to the end of the string.
pub assume_specification[ String::push ](s: &mut String, ch: char)
    ensures
        final(s)@ == old(s)@.push(ch),
;

/// The texts as sequences of characters.
pub open spec fn texts(strings: Seq<String>) -> Seq<Seq<char>> {
    strings.map_values(|s: String| s@)
}

/// `key` is among `keys`.
pub open spec fn key_listed(keys: Seq<String>, key: Seq<char>) -> bool {
    exists|i: int| 0 <= i < keys.len() && (#[trigger] keys[i])@ == key
}

/// Says whether `key` is among `keys`.
pub fn contains_key(keys: &Vec<String>, key: &String) -> (r: bool)
    ensures
        r == key_listed(keys@, key@),
        r == texts(keys@).contains(key@),
{
    let mut i: usize = 0;
    while i < keys.len()
        invariant
            i <= keys.len(),
            forall|j: int| 0 <= j < i ==> (#[trigger] keys@[j])@ != key@,
        decreases keys.len() - i,
    {
        if keys[i] == *key {
            assert(texts(keys@)[i as int] == key@);
            return true;
        }
        i += 1;
    }
    assert forall|j: int| 0 <= j < texts(keys@).len() implies texts(keys@)[j] != key@ by {
        assert(texts(keys@)[j] == keys@[j]@);
    }
    false
}

/// The digits of radices up to sixteen, lower case.
pub open spec fn digit_alphabet() -> Seq<char> {
    seq!['0', '1', '2', '3', '4', '5', '6', '7', '8', '9', 'a', 'b', 'c', 'd', 'e', 'f']
}

/// The digit that stands for `d`.
pub open spec fn digit_char(d: int) -> char
    recommends
        0 <= d < 16,
{
    digit_alphabet()[d]
}

/// The digits of `n` in the given radix, most significant first, without
/// leading zeros; zero is the single digit `0`.
pub open spec fn radix_digits(n: nat, radix: nat) -> Seq<char>
    recommends
        2 <= radix <= 16,
    decreases n,
{
    if radix < 2 || n < radix {
        seq![digit_char(n as int)]
    } else {
        proof {
            assert(n / radix < n) by (nonlinear_arith)
                requires
                    radix >= 2,
                    n >= radix,
            ;
        }
        radix_digits(n / radix, radix).push(digit_char((n % radix) as int))
    }
}

/// `n` in decimal.
pub open spec fn decimal(n: nat) -> Seq<char> {
    radix_digits(n, 10)
}

/// `n` in lower-case hexadecimal.
pub open spec fn lower_hex(n: nat) -> Seq<char> {
    radix_digits(n, 16)
}

fn digit(d: u64) -> (c: char)
    requires
        d < 16,
    ensures
        c == digit_char(d as int),
{
    match d {
        0 => '0',
        1 => '1',
        2 => '2',
        3 => '3',
        4 => '4',
        5 => '5',
        6 => '6',
        7 => '7',
        8 => '8',
        9 => '9',
        10 => 'a',
        11 => 'b',
        12 => 'c',
        13 => 'd',
        14 => 'e',
        _ => 'f',
    }
}

fn render_radix(n: u64, radix: u64) -> (r: String)
    requires
        2 <= radix <= 16,
    ensures
        r@ == radix_digits(n as nat, radix as nat),
{
    let mut rev: Vec<char> = Vec::new();
    rev.push(digit(n % radix));
    let mut m: u64 = n / radix;
    proof {
        assert(rev@.reverse() =~= seq![digit_char((n % radix) as int)]);
        assert(m == 0 <==> n < radix) by (nonlinear_arith)
            requires
                radix >= 2,
                m == n / radix,
        ;
        if n >= radix {
            assert(radix_digits(n as nat, radix as nat) =~= radix_digits(m as nat, radix as nat)
                + rev@.reverse());
        } else {
            assert(n % radix == n) by (nonlinear_arith)
                requires
                    n < radix,
            ;
            assert(radix_digits(n as nat, radix as nat) =~= Seq::<char>::empty() + rev@.reverse());
        }
    }
    while m != 0
        invariant
            2 <= radix <= 16,
            radix_digits(n as nat, radix as nat) == (if m == 0 {
                Seq::<char>::empty()
            } else {
                radix_digits(m as nat, radix as nat)
            }) + rev@.reverse(),
        decreases m,
    {
        let ghost before = rev@;
        let ghost m0 = m;
        let c = digit(m % radix);
        rev.push(c);
        m = m / radix;
        proof {
            assert(rev@.reverse() =~= seq![c] + before.reverse());
            assert(m == 0 <==> m0 < radix) by (nonlinear_arith)
                requires
                    radix >= 2,
                    m == m0 / radix,
            ;
            if m0 >= radix {
                assert(radix_digits(m0 as nat, radix as nat) + before.reverse() =~= radix_digits(
                    m as nat,
                    radix as nat,
                ) + rev@.reverse());
            } else {
                assert(m0 % radix == m0) by (nonlinear_arith)
                    requires
                        m0 < radix,
                ;
                assert(radix_digits(m0 as nat, radix as nat) + before.reverse()
                    =~= Seq::<char>::empty() + rev@.reverse());
            }
        }
    }
    let mut out = String::new();
    let mut i: usize = rev.len();
    while i > 0
        invariant
            i <= rev.len(),
            out@ == rev@.reverse().subrange(0, rev.len() - i),
        decreases i,
    {
        i = i - 1;
        out.push(rev[i]);
        assert(out@ =~= rev@.reverse().subrange(0, rev.len() - i));
    }
    assert(out@ =~= rev@.reverse());
    assert(Seq::<char>::empty() + rev@.reverse() =~= rev@.reverse());
    out
}

/// Renders `n` in decimal.
pub fn decimal_string(n: u64) -> (r: String)
    ensures
        r@ == decimal(n as nat),
{
    render_radix(n, 10)
}

/// Renders `n` in lower-case hexadecimal.
pub fn hex_string(n: u64) -> (r: String)
    ensures
        r@ == lower_hex(n as nat),
{
    render_radix(n, 16)
}

/// Whether a character is a decimal digit.
pub open spec fn is_decimal_digit(c: char) -> bool {
    0x30 <= c as u32 <= 0x39
}

/// The number that decimal digits stand for.
pub open spec fn decimal_value(digits: Seq<char>) -> nat
    decreases digits.len(),
{
    if digits.len() == 0 {
        0
    } else {
        decimal_value(digits.drop_last()) * 10 + ((digits.last() as u32 - 0x30) as nat)
    }
}

/// A number in decimal is one digit at least, digits only, and stands for
/// the number.
pub proof fn lemma_decimal(n: nat)
    ensures
        decimal(n).len() >= 1,
        forall|i: int| 0 <= i < decimal(n).len() ==> is_decimal_digit(#[trigger] decimal(n)[i]),
        decimal_value(decimal(n)) == n,
    decreases n,
{
    reveal_with_fuel(decimal_value, 2);
    if n >= 10 {
        lemma_decimal(n / 10);
        let init = decimal(n / 10);
        let last = digit_char((n % 10) as int);
        assert(decimal(n) == init.push(last));
        assert(init.push(last).drop_last() =~= init);
        assert(is_decimal_digit(last));
        assert forall|i: int| 0 <= i < decimal(n).len() implies is_decimal_digit(
            #[trigger] decimal(n)[i],
        ) by {
            if i < init.len() {
                assert(decimal(n)[i] == init[i]);
            }
        }
    } else {
        assert(decimal(n) == seq![digit_char(n as int)]);
        assert(seq![digit_char(n as int)].drop_last() =~= Seq::<char>::empty());
    }
}

/// Two numbers with the same decimal text are the same number.
pub proof fn lemma_decimal_injective(a: nat, b: nat)
    requires
        decimal(a) == decimal(b),
    ensures
        a == b,
{
    lemma_decimal(a);
    lemma_decimal(b);
}

/// `n` in decimal, with a minus sign before a negative number.
pub open spec fn signed_decimal(n: int) -> Seq<char> {
    if n < 0 {
        seq!['-'] + decimal((-n) as nat)
    } else {
        decimal(n as nat)
    }
}

/// Renders `n` in decimal, with a minus sign before a negative number.
pub fn signed_decimal_string(n: i64) -> (r: String)
    ensures
        r@ == signed_decimal(n as int),
{
    if n < 0 {
        let magnitude: u64 = if n == i64::MIN {
            9223372036854775808
        } else {
            (-n) as u64
        };
        let mut out = String::new();
        out.push('-');
        let digits = decimal_string(magnitude);
        out.append(digits.as_str());
        assert(out@ =~= seq!['-'] + decimal((-n) as nat));
        out
    } else {
        decimal_string(n as u64)
    }
}

/// Whether a character is white space: the characters with the Unicode
/// property `White_Space`.
pub open spec fn is_whitespace(c: char) -> bool {
    let code = c as u32;
    ||| 0x9 <= code <= 0xd
    ||| code == 0x20
    ||| code == 0x85
    ||| code == 0xa0
    ||| code == 0x1680
    ||| 0x2000 <= code <= 0x200a
    ||| code == 0x2028
    ||| code == 0x2029
    ||| code == 0x202f
    ||| code == 0x205f
    ||| code == 0x3000
}

/// The text without the white space that it starts with.
pub open spec fn trim_start(text: Seq<char>) -> Seq<char>
    decreases text.len(),
{
    if text.len() > 0 && is_whitespace(text[0]) {
        trim_start(text.drop_first())
    } else {
        text
    }
}

/// A line without the carriage return that it ends with, if it ends with
/// one.
pub open spec fn strip_cr(line: Seq<char>) -> Seq<char> {
    if line.len() > 0 && line.last() == '\r' {
        line.drop_last()
    } else {
        line
    }
}

/// A text read from left to right: the lines that a line feed has ended so
/// far, and what has been read since the last line feed. A line that ends
/// with a line feed loses a carriage return before it.
pub open spec fn scanned(text: Seq<char>) -> (Seq<Seq<char>>, Seq<char>)
    decreases text.len(),
{
    if text.len() == 0 {
        (Seq::empty(), Seq::empty())
    } else {
        let (lines, pending) = scanned(text.drop_last());
        if text.last() == '\n' {
            (lines.push(strip_cr(pending)), Seq::empty())
        } else {
            (lines, pending.push(text.last()))
        }
    }
}

/// The lines of a text. A line ends with a line feed, or with a carriage
/// return and a line feed, neither of which belongs to the line; the last
/// line needs no such end.
pub open spec fn lines(text: Seq<char>) -> Seq<Seq<char>> {
    let (lines, pending) = scanned(text);
    if pending.len() > 0 {
        lines.push(pending)
    } else {
        lines
    }
}

/// The lines put together again, with a line feed between each two.
pub open spec fn joined(lines: Seq<Seq<char>>) -> Seq<char>
    decreases lines.len(),
{
    if lines.len() == 0 {
        Seq::empty()
    } else if lines.len() == 1 {
        lines[0]
    } else {
        joined(lines.drop_last()) + seq!['\n'] + lines.last()
    }
}

/// The text with the leading white space of every line removed.
pub open spec fn unindented(text: Seq<char>) -> Seq<char> {
    joined(lines(text).map_values(|line: Seq<char>| trim_start(line)))
}

fn is_space(c: char) -> (r: bool)
    ensures
        r == is_whitespace(c),
{
    let code = c as u32;
    (0x9 <= code && code <= 0xd) || code == 0x20 || code == 0x85 || code == 0xa0 || code == 0x1680
        || (0x2000 <= code && code <= 0x200a) || code == 0x2028 || code == 0x2029 || code
        == 0x202f || code == 0x205f || code == 0x3000
}

proof fn lemma_trim_start(text: Seq<char>, k: int)
    requires
        0 <= k <= text.len(),
        forall|j: int| 0 <= j < k ==> is_whitespace(#[trigger] text[j]),
        k < text.len() ==> !is_whitespace(text[k]),
    ensures
        trim_start(text) == text.subrange(k, text.len() as int),
    decreases k,
{
    if k == 0 {
        assert(text.subrange(0, text.len() as int) =~= text);
    } else {
        let rest = text.drop_first();
        assert forall|j: int| 0 <= j < k - 1 implies is_whitespace(#[trigger] rest[j]) by {
            assert(rest[j] == text[j + 1]);
        }
        lemma_trim_start(rest, k - 1);
        assert(rest.subrange(k - 1, rest.len() as int) =~= text.subrange(k, text.len() as int));
    }
}

fn split_lines(text: &str) -> (r: Vec<Vec<char>>)
    ensures
        r@.map_values(|line: Vec<char>| line@) == lines(text@),
{
    let ghost view_of = |line: Vec<char>| line@;
    let mut done: Vec<Vec<char>> = Vec::new();
    let mut pending: Vec<char> = Vec::new();
    assert(text@.take(0) =~= Seq::<char>::empty());
    assert(done@.map_values(view_of) =~= Seq::<Seq<char>>::empty());
    for c in it: text.chars()
        invariant
            view_of == (|line: Vec<char>| line@),
            it.seq() == text@,
            scanned(text@.take(it.index() as int)) == (done@.map_values(view_of), pending@),
    {
        let ghost i = it.index() as int;
        let ghost before = done@.map_values(view_of);
        proof {
            assert(text@.take(i + 1).drop_last() =~= text@.take(i));
            assert(text@.take(i + 1).last() == c);
        }
        if c == '\n' {
            let len = pending.len();
            if len > 0 && pending[len - 1] == '\r' {
                pending.pop();
                assert(pending@ =~= strip_cr(scanned(text@.take(i)).1));
            }
            done.push(pending);
            pending = Vec::new();
            assert(done@.map_values(view_of) =~= before.push(strip_cr(scanned(text@.take(i)).1)));
        } else {
            pending.push(c);
        }
    }
    assert(text@.take(text@.len() as int) =~= text@);
    if pending.len() > 0 {
        let ghost before = done@.map_values(view_of);
        done.push(pending);
        assert(done@.map_values(view_of) =~= before.push(scanned(text@).1));
    }
    done
}

/// Removes the leading white space of every line and joins the lines with
/// line feeds.
pub fn unindent(s: String) -> (r: String)
    ensures
        r@ == unindented(s@),
{
    let ghost view_of = |line: Vec<char>| line@;
    let ghost trim = |line: Seq<char>| trim_start(line);
    let split = split_lines(s.as_str());
    let ghost all = lines(s@);
    let mut out = String::new();
    let mut i: usize = 0;
    assert(all.take(0).map_values(trim) =~= Seq::<Seq<char>>::empty());
    while i < split.len()
        invariant
            i <= split.len(),
            view_of == (|line: Vec<char>| line@),
            trim == (|line: Seq<char>| trim_start(line)),
            all == split@.map_values(view_of),
            out@ == joined(all.take(i as int).map_values(trim)),
        decreases split.len() - i,
    {
        let line = &split[i];
        assert(line@ == all[i as int]);
        let ghost before = out@;
        if i > 0 {
            out.push('\n');
        }
        let mut k: usize = 0;
        while k < line.len() && is_space(line[k])
            invariant
                k <= line.len(),
                forall|j: int| 0 <= j < k ==> is_whitespace(#[trigger] line@[j]),
            decreases line.len() - k,
        {
            k += 1;
        }
        proof {
            lemma_trim_start(line@, k as int);
        }
        let ghost start = out@;
        let ghost first = k;
        while k < line.len()
            invariant
                first <= k <= line.len(),
                out@ == start + line@.subrange(first as int, k as int),
            decreases line.len() - k,
        {
            out.push(line[k]);
            assert(line@.subrange(first as int, k + 1) =~= line@.subrange(
                first as int,
                k as int,
            ).push(line@[k as int]));
            k += 1;
        }
        proof {
            let upto = all.take(i + 1).map_values(trim);
            assert(upto.drop_last() =~= all.take(i as int).map_values(trim));
            assert(upto.last() == trim_start(line@));
            if i == 0 {
                assert(out@ =~= trim_start(line@));
                assert(upto.len() == 1);
            } else {
                assert(out@ =~= before + seq!['\n'] + trim_start(line@));
            }
        }
        i += 1;
    }
    assert(all.take(i as int) =~= all);
    out
}

} // verus!
