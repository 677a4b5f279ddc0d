//! Characters, lines and words: the text layer under the task file grammar.

use vstd::prelude::*;
use vstd::std_specs::iter::IteratorSpec;

verus! {

broadcast use vstd::string::group_string_axioms;

/// `String::push` appends one character to the end of the string.
pub assume_specification[ String::push ](s: &mut String, c: char)
    ensures
        final(s)@ == old(s)@.push(c),
;

/// The characters with the Unicode property `White_Space`.
pub open spec fn is_space(c: char) -> bool {
    let n = c as u32;
    ||| 0x09 <= n <= 0x0D
    ||| n == 0x20
    ||| n == 0x85
    ||| n == 0xA0
    ||| n == 0x1680
    ||| 0x2000 <= n <= 0x200A
    ||| n == 0x2028
    ||| n == 0x2029
    ||| n == 0x202F
    ||| n == 0x205F
    ||| n == 0x3000
}

/// Whether a character is whitespace.
pub fn is_whitespace(c: char) -> (b: bool)
    ensures
        b == is_space(c),
{
    let n: u32 = c as u32;
    (0x09 <= n && n <= 0x0D) || n == 0x20 || n == 0x85 || n == 0xA0 || n == 0x1680 || (0x2000 <= n
        && n <= 0x200A) || n == 0x2028 || n == 0x2029 || n == 0x202F || n == 0x205F || n == 0x3000
}

/// The least index at or after `i` whose element satisfies `stop`, or the
/// length of `s` where there is none.
pub open spec fn scan<A>(s: Seq<A>, i: int, stop: spec_fn(A) -> bool) -> int
    decreases s.len() - i,
{
    if i < 0 || i >= s.len() {
        s.len() as int
    } else if stop(s[i]) {
        i
    } else {
        scan(s, i + 1, stop)
    }
}

/// `scan` stops at the first element that satisfies the predicate and passes
/// over nothing that does.
pub proof fn lemma_scan<A>(s: Seq<A>, i: int, stop: spec_fn(A) -> bool)
    requires
        0 <= i <= s.len(),
    ensures
        i <= scan(s, i, stop) <= s.len(),
        scan(s, i, stop) < s.len() ==> stop(s[scan(s, i, stop)]),
        forall|k: int| i <= k < scan(s, i, stop) ==> !stop(#[trigger] s[k]),
    decreases s.len() - i,
{
    if i < s.len() && !stop(s[i]) {
        lemma_scan(s, i + 1, stop);
    }
}

/// The characters of a string slice, in order.
pub fn chars_of(s: &str) -> (v: Vec<char>)
    ensures
        v@ == s@,
{
    let mut it = s.chars();
    let mut v: Vec<char> = Vec::new();
    loop
        invariant
            v@ + it.remaining() == s@,
            it.decrease() is Some,
        ensures
            v@ == s@,
        decreases it.decrease()->0,
    {
        match it.next() {
            Some(c) => {
                v.push(c);
                assert(v@ + it.remaining() =~= s@);
            },
            None => {
                assert(v@ =~= s@);
                break ;
            },
        }
    }
    v
}

/// The string made of `chars[from..to]`.
pub fn string_of(chars: &Vec<char>, from: usize, to: usize) -> (s: String)
    requires
        from <= to <= chars.len(),
    ensures
        s@ == chars@.subrange(from as int, to as int),
{
    let mut s = String::new();
    let mut i: usize = from;
    while i < to
        invariant
            from <= i <= to <= chars.len(),
            s@ == chars@.subrange(from as int, i as int),
        decreases to - i,
    {
        s.push(chars[i]);
        i += 1;
        assert(s@ =~= chars@.subrange(from as int, i as int));
    }
    s
}

/// A copy of `chars[from..to]`.
pub fn slice_of(chars: &Vec<char>, from: usize, to: usize) -> (v: Vec<char>)
    requires
        from <= to <= chars.len(),
    ensures
        v@ == chars@.subrange(from as int, to as int),
{
    let mut v: Vec<char> = Vec::new();
    let mut i: usize = from;
    while i < to
        invariant
            from <= i <= to <= chars.len(),
            v@ == chars@.subrange(from as int, i as int),
        decreases to - i,
    {
        v.push(chars[i]);
        i += 1;
        assert(v@ =~= chars@.subrange(from as int, i as int));
    }
    v
}

/// The decimal digit for `d`, which is below ten.
pub open spec fn digit(d: nat) -> char {
    if d == 0 {
        '0'
    } else if d == 1 {
        '1'
    } else if d == 2 {
        '2'
    } else if d == 3 {
        '3'
    } else if d == 4 {
        '4'
    } else if d == 5 {
        '5'
    } else if d == 6 {
        '6'
    } else if d == 7 {
        '7'
    } else if d == 8 {
        '8'
    } else {
        '9'
    }
}

/// `n` written in base ten, without leading zeros.
pub open spec fn decimal(n: nat) -> Seq<char>
    decreases n,
{
    if n < 10 {
        seq![digit(n)]
    } else {
        decimal(n / 10).push(digit(n % 10))
    }
}

fn digit_char(d: u64) -> (c: char)
    requires
        d < 10,
    ensures
        c == digit(d as nat),
{
    if d == 0 {
        '0'
    } else if d == 1 {
        '1'
    } else if d == 2 {
        '2'
    } else if d == 3 {
        '3'
    } else if d == 4 {
        '4'
    } else if d == 5 {
        '5'
    } else if d == 6 {
        '6'
    } else if d == 7 {
        '7'
    } else if d == 8 {
        '8'
    } else {
        '9'
    }
}

/// An integer in base ten, with a minus sign where it is negative.
pub open spec fn signed_decimal(n: int) -> Seq<char> {
    if n < 0 {
        seq!['-'] + decimal((-n) as nat)
    } else {
        decimal(n as nat)
    }
}

/// The string that holds `n` in base ten.
pub fn decimal_string(n: i64) -> (s: String)
    ensures
        s@ == signed_decimal(n as int),
{
    let mut s = String::new();
    if n < 0 {
        s.push('-');
        let m: u64 = (-(n + 1)) as u64 + 1;
        push_decimal(&mut s, m);
        assert(s@ =~= signed_decimal(n as int));
    } else {
        push_decimal(&mut s, n as u64);
        assert(s@ =~= signed_decimal(n as int));
    }
    s
}

/// Appends `n` in base ten to `s`.
pub fn push_decimal(s: &mut String, n: u64)
    ensures
        final(s)@ == old(s)@ + decimal(n as nat),
    decreases n,
{
    if n >= 10 {
        push_decimal(s, n / 10);
    }
    s.push(digit_char(n % 10));
    assert(final(s)@ =~= old(s)@ + decimal(n as nat));
}

/// The predicate that holds of the line feed alone.
pub open spec fn newline() -> spec_fn(char) -> bool {
    |c: char| c == '\n'
}

/// The predicate that holds of whitespace.
pub open spec fn space() -> spec_fn(char) -> bool {
    |c: char| is_space(c)
}

/// The predicate that holds of everything but whitespace.
pub open spec fn non_space() -> spec_fn(char) -> bool {
    |c: char| !is_space(c)
}

/// A line without the carriage return that may end it.
pub open spec fn strip_cr(line: Seq<char>) -> Seq<char> {
    if line.len() > 0 && line.last() == '\r' {
        line.drop_last()
    } else {
        line
    }
}

/// The lines of `s` that begin at or after position `i`, which is the
/// beginning of a line.
pub open spec fn lines_from(s: Seq<char>, i: int) -> Seq<Seq<char>>
    decreases s.len() - i,
{
    if i < 0 || i >= s.len() {
        Seq::empty()
    } else {
        let e = scan(s, i, newline());
        proof {
            lemma_scan(s, i, newline());
        }
        if e < s.len() {
            seq![strip_cr(s.subrange(i, e))] + lines_from(s, e + 1)
        } else {
            seq![s.subrange(i, e)]
        }
    }
}

/// The lines of a text.  A line ends at a line feed, or at a carriage return
/// directly followed by one; neither belongs to the line.  The last line
/// needs no line ending: a text that ends in one has no empty line after it.
pub open spec fn lines_of(s: Seq<char>) -> Seq<Seq<char>> {
    lines_from(s, 0)
}

/// No line holds a line feed.
pub proof fn lemma_lines_hold_no_line_feed(s: Seq<char>, i: int)
    requires
        0 <= i <= s.len(),
    ensures
        forall|k: int, m: int|
            0 <= k < lines_from(s, i).len() && 0 <= m < lines_from(s, i)[k].len()
                ==> #[trigger] lines_from(s, i)[k][m] != '\n',
    decreases s.len() - i,
{
    if i < s.len() {
        let e = scan(s, i, newline());
        lemma_scan(s, i, newline());
        let line = s.subrange(i, e);
        assert forall|m: int| 0 <= m < line.len() implies line[m] != '\n' by {
            assert(!newline()(s[i + m]));
        }
        if e < s.len() {
            let more = lines_from(s, e + 1);
            lemma_lines_hold_no_line_feed(s, e + 1);
            assert(lines_from(s, i) == seq![strip_cr(line)] + more);
            assert forall|k: int, m: int|
                0 <= k < lines_from(s, i).len() && 0 <= m < lines_from(s, i)[k].len() implies #[trigger] lines_from(
                s,
                i,
            )[k][m] != '\n' by {
                if k > 0 {
                    assert(lines_from(s, i)[k] == more[k - 1]);
                } else {
                    assert(strip_cr(line)[m] == line[m]);
                }
            }
        }
    }
}

/// What the string slice holds, where there is one.
pub open spec fn str_view(s: Option<&str>) -> Option<Seq<char>> {
    match s {
        Some(text) => Some(text@),
        None => None,
    }
}

/// What the string holds, where there is one.
pub open spec fn string_view(s: Option<String>) -> Option<Seq<char>> {
    match s {
        Some(text) => Some(text@),
        None => None,
    }
}

/// What each of the lines holds.
pub open spec fn line_views(lines: Seq<Vec<char>>) -> Seq<Seq<char>> {
    Seq::new(lines.len(), |i: int| lines[i]@)
}

/// What each of the strings holds.
pub open spec fn strs(v: Seq<String>) -> Seq<Seq<char>> {
    Seq::new(v.len(), |i: int| v[i]@)
}

/// Splits a text into its lines.
pub fn split_lines(text: &str) -> (lines: Vec<Vec<char>>)
    ensures
        line_views(lines@) == lines_of(text@),
{
    let chars = chars_of(text);
    let n = chars.len();
    let mut lines: Vec<Vec<char>> = Vec::new();
    let mut i: usize = 0;
    assert(line_views(lines@) + lines_from(text@, 0) =~= lines_of(text@));
    while i < n
        invariant
            n == chars.len(),
            chars@ == text@,
            i <= n,
            lines_of(text@) == line_views(lines@) + lines_from(text@, i as int),
        decreases n - i,
    {
        let ghost before = lines@;
        let mut e = i;
        while e < n && chars[e] != '\n'
            invariant
                i <= e <= n,
                n == chars.len(),
                scan(chars@, i as int, newline()) == scan(chars@, e as int, newline()),
            decreases n - e,
        {
            e += 1;
        }
        if e < n {
            let stop = if e > i && chars[e - 1] == '\r' {
                e - 1
            } else {
                e
            };
            let line = slice_of(&chars, i, stop);
            assert(line@ =~= strip_cr(chars@.subrange(i as int, e as int)));
            lines.push(line);
            assert(line_views(lines@) + lines_from(text@, e + 1) =~= line_views(before)
                + lines_from(text@, i as int));
            i = e + 1;
        } else {
            let line = slice_of(&chars, i, e);
            lines.push(line);
            assert(line_views(lines@) + lines_from(text@, n as int) =~= line_views(before)
                + lines_from(text@, i as int));
            i = n;
        }
    }
    assert(line_views(lines@) + lines_from(text@, n as int) =~= line_views(lines@));
    lines
}

/// The words of `s` that begin at or after position `i`.
pub open spec fn words_from(s: Seq<char>, i: int) -> Seq<Seq<char>>
    decreases s.len() - i,
{
    let a = scan(s, i, non_space());
    if i < 0 || a >= s.len() {
        Seq::empty()
    } else {
        let b = scan(s, a, space());
        proof {
            lemma_scan(s, i, non_space());
            lemma_scan(s, a, space());
        }
        seq![s.subrange(a, b)] + words_from(s, b)
    }
}

/// The words of a line: its longest runs of characters other than
/// whitespace, from left to right.
pub open spec fn words_of(s: Seq<char>) -> Seq<Seq<char>> {
    words_from(s, 0)
}

/// Every word holds at least one character, and no whitespace.
pub proof fn lemma_words(s: Seq<char>, i: int)
    requires
        0 <= i <= s.len(),
    ensures
        forall|k: int|
            0 <= k < words_from(s, i).len() ==> (#[trigger] words_from(s, i)[k]).len() > 0,
        forall|k: int, m: int|
            0 <= k < words_from(s, i).len() && 0 <= m < words_from(s, i)[k].len() ==> !is_space(
                #[trigger] words_from(s, i)[k][m],
            ),
    decreases s.len() - i,
{
    let a = scan(s, i, non_space());
    lemma_scan(s, i, non_space());
    if a < s.len() {
        let b = scan(s, a, space());
        lemma_scan(s, a, space());
        let word = s.subrange(a, b);
        let more = words_from(s, b);
        assert forall|m: int| 0 <= m < word.len() implies !is_space(word[m]) by {
            assert(!space()(s[a + m]));
        }
        lemma_words(s, b);
        assert(words_from(s, i) == seq![word] + more);
        assert forall|k: int| 0 <= k < words_from(s, i).len() implies {
            &&& (#[trigger] words_from(s, i)[k]).len() > 0
            &&& forall|m: int|
                0 <= m < words_from(s, i)[k].len() ==> !is_space(words_from(s, i)[k][m])
        } by {
            if k > 0 {
                assert(words_from(s, i)[k] == more[k - 1]);
            }
        }
    }
}

/// Splits a line into its words.
pub fn split_words(line: &Vec<char>) -> (words: Vec<String>)
    ensures
        strs(words@) == words_of(line@),
{
    let n = line.len();
    let mut words: Vec<String> = Vec::new();
    let mut i: usize = 0;
    assert(strs(words@) + words_from(line@, 0) =~= words_of(line@));
    loop
        invariant
            n == line.len(),
            i <= n,
            words_of(line@) == strs(words@) + words_from(line@, i as int),
        ensures
            strs(words@) == words_of(line@),
        decreases n - i,
    {
        let ghost before = words@;
        let mut a = i;
        while a < n && is_whitespace(line[a])
            invariant
                i <= a <= n,
                n == line.len(),
                scan(line@, i as int, non_space()) == scan(line@, a as int, non_space()),
            decreases n - a,
        {
            a += 1;
        }
        if a >= n {
            assert(strs(words@) + words_from(line@, i as int) =~= strs(words@));
            break ;
        }
        let mut b = a;
        while b < n && !is_whitespace(line[b])
            invariant
                a <= b <= n,
                n == line.len(),
                scan(line@, a as int, space()) == scan(line@, b as int, space()),
            decreases n - b,
        {
            b += 1;
        }
        let word = string_of(line, a, b);
        words.push(word);
        assert(strs(words@) + words_from(line@, b as int) =~= strs(before) + words_from(
            line@,
            i as int,
        ));
        i = b;
    }
    words
}

/// The ten decimal digits.
pub open spec fn is_digit(c: char) -> bool {
    '0' <= c <= '9'
}

/// The number that a decimal digit stands for.
pub open spec fn digit_value(c: char) -> int {
    c as u32 - '0' as u32
}

/// The number that a run of decimal digits stands for.
pub open spec fn digits_value(s: Seq<char>) -> int
    decreases s.len(),
{
    if s.len() == 0 {
        0
    } else {
        digits_value(s.drop_last()) * 10 + digit_value(s.last())
    }
}

/// A run of decimal digits; the empty run is one.
pub open spec fn all_digits(s: Seq<char>) -> bool {
    forall|k: int| 0 <= k < s.len() ==> is_digit(#[trigger] s[k])
}

/// The integer that a text denotes: one or more decimal digits, which a
/// single plus or minus sign may precede, and nothing else.
pub open spec fn integer_text(s: Seq<char>) -> Option<int> {
    let signed = s.len() > 0 && (s[0] == '-' || s[0] == '+');
    let digits = if signed {
        s.drop_first()
    } else {
        s
    };
    if digits.len() == 0 || !all_digits(digits) {
        None
    } else if s[0] == '-' {
        Some(-digits_value(digits))
    } else {
        Some(digits_value(digits))
    }
}

/// The 32-bit integer that a text denotes, where it denotes one.
pub open spec fn parsed_i32(s: Seq<char>) -> Option<i32> {
    match integer_text(s) {
        Some(v) => if i32::MIN <= v <= i32::MAX {
            Some(v as i32)
        } else {
            None
        },
        None => None,
    }
}

/// Reads a 32-bit integer in base ten.
pub fn parse_i32(s: &str) -> (r: Option<i32>)
    ensures
        r == parsed_i32(s@),
{
    let chars = chars_of(s);
    let n = chars.len();
    if n == 0 {
        return None;
    }
    let negative = chars[0] == '-';
    let start: usize = if negative || chars[0] == '+' {
        1
    } else {
        0
    };
    let ghost digits = chars@.subrange(start as int, n as int);
    assert(digits =~= if start == 1 {
        s@.drop_first()
    } else {
        s@
    });
    if start >= n {
        return None;
    }
    let mut acc: i64 = 0;
    let mut big = false;
    let mut i: usize = start;
    assert(digits.take(0) =~= Seq::<char>::empty());
    while i < n
        invariant
            start <= i <= n,
            n == chars.len(),
            digits == chars@.subrange(start as int, n as int),
            s@.len() > 0,
            digits == if s@[0] == '-' || s@[0] == '+' {
                s@.drop_first()
            } else {
                s@
            },
            all_digits(digits.take(i - start)),
            !big ==> acc == digits_value(digits.take(i - start)) && 0 <= acc <= 0x8000_0000,
            big ==> digits_value(digits.take(i - start)) > 0x8000_0000,
        decreases n - i,
    {
        let c = chars[i];
        assert(c == digits[i - start]);
        if !('0' <= c && c <= '9') {
            assert(!is_digit(digits[i - start]));
            return None;
        }
        assert(digits.take(i - start + 1).drop_last() =~= digits.take(i - start));
        let d: i64 = (c as u32 - '0' as u32) as i64;
        if !big {
            acc = acc * 10 + d;
            if acc > 0x8000_0000 {
                big = true;
            }
        }
        i += 1;
    }
    assert(digits.take(n - start) =~= digits);
    if big {
        None
    } else if negative {
        Some((-acc) as i32)
    } else if acc > 0x7fff_ffff {
        None
    } else {
        Some(acc as i32)
    }
}

/// The digits of a number are digits, and stand for the number.
pub proof fn lemma_decimal_value(n: nat)
    ensures
        decimal(n).len() > 0,
        all_digits(decimal(n)),
        digits_value(decimal(n)) == n,
    decreases n,
{
    if n < 10 {
        assert(decimal(n).drop_last() =~= Seq::<char>::empty());
        assert(digits_value(decimal(n).drop_last()) == 0);
    } else {
        lemma_decimal_value(n / 10);
        assert(decimal(n).drop_last() =~= decimal(n / 10));
    }
}

/// An integer written in base ten is read back as itself.
pub proof fn lemma_decimal_round_trip(n: int)
    ensures
        integer_text(signed_decimal(n)) == Some(n),
        i32::MIN <= n <= i32::MAX ==> parsed_i32(signed_decimal(n)) == Some(n as i32),
{
    if n < 0 {
        lemma_decimal_value((-n) as nat);
        assert(signed_decimal(n).drop_first() =~= decimal((-n) as nat));
    } else {
        lemma_decimal_value(n as nat);
        assert(is_digit(decimal(n as nat)[0]));
    }
}

} // verus!
