//! Text as sequences of characters: decimal numbers, trimming and searching.

use vstd::prelude::*;
use vstd::string::*;

verus! {

/// Whether a character has the Unicode property `White_Space`.
pub open spec fn white_space(c: char) -> bool {
    let n = c as u32;
    ||| 0x9 <= n <= 0xD
    ||| n == 0x20
    ||| n == 0x85
    ||| n == 0xA0
    ||| n == 0x1680
    ||| 0x2000 <= n <= 0x200A
    ||| n == 0x2028
    ||| n == 0x2029
    ||| n == 0x202F
    ||| n == 0x205F
    ||| n == 0x3000
}

/// Whether a character is white space.
pub fn is_white_space(c: char) -> (answer: bool)
    ensures
        answer == white_space(c),
{
    let n: u32 = c as u32;
    (0x9 <= n && n <= 0xD) || n == 0x20 || n == 0x85 || n == 0xA0 || n == 0x1680 || (0x2000 <= n
        && n <= 0x200A) || n == 0x2028 || n == 0x2029 || n == 0x202F || n == 0x205F || n == 0x3000
}

/// `String::push` appends the one character.
pub assume_specification[ String::push ](s: &mut String, c: char)
    ensures
        final(s)@ == old(s)@.push(c),
;

/// The characters of a text.
pub fn chars_of(s: &str) -> (chars: Vec<char>)
    ensures
        chars@ == s@,
{
    let mut chars: Vec<char> = Vec::new();
    for c in it: s.chars()
        invariant
            it.seq() == s@,
            chars@ == s@.take(it.index()),
    {
        chars.push(c);
    }
    chars
}

/// The text made of these characters.
pub fn text_of(chars: &[char]) -> (s: String)
    ensures
        s@ == chars@,
{
    let mut s: String = String::new();
    let mut i: usize = 0;
    while i < chars.len()
        invariant
            i <= chars@.len(),
            s@ == chars@.take(i as int),
        decreases chars@.len() - i,
    {
        s.push(chars[i]);
        i = i + 1;
    }
    s
}

/// The text without the white space in front.
pub open spec fn trimmed_front(s: Seq<char>) -> Seq<char>
    decreases s.len(),
{
    if s.len() > 0 && white_space(s[0]) {
        trimmed_front(s.drop_first())
    } else {
        s
    }
}

/// The text without the white space behind.
pub open spec fn trimmed_back(s: Seq<char>) -> Seq<char>
    decreases s.len(),
{
    if s.len() > 0 && white_space(s.last()) {
        trimmed_back(s.drop_last())
    } else {
        s
    }
}

/// The text without white space at either end.
pub open spec fn trimmed(s: Seq<char>) -> Seq<char> {
    trimmed_back(trimmed_front(s))
}

/// Whether there is nothing but white space in a text.
pub open spec fn blank(s: Seq<char>) -> bool {
    forall|i: int| 0 <= i < s.len() ==> white_space(#[trigger] s[i])
}

/// What stands between white space is what is left without it.
pub proof fn lemma_trimmed_between(front: Seq<char>, s: Seq<char>, back: Seq<char>)
    requires
        blank(front),
        blank(back),
        s.len() > 0,
        !white_space(s[0]),
        !white_space(s.last()),
    ensures
        trimmed(front + s + back) == s,
    decreases front.len(),
{
    let all = front + s + back;
    if front.len() > 0 {
        assert(white_space(front[0]));
        assert(all.drop_first() == front.drop_first() + s + back);
        lemma_trimmed_between(front.drop_first(), s, back);
    } else {
        assert(all == s + back);
        lemma_trimmed_behind(s, back);
    }
}

proof fn lemma_trimmed_behind(s: Seq<char>, back: Seq<char>)
    requires
        blank(back),
        s.len() > 0,
        !white_space(s.last()),
    ensures
        trimmed_back(s + back) == s,
    decreases back.len(),
{
    let all = s + back;
    if back.len() > 0 {
        assert(white_space(back[back.len() - 1]));
        assert(all.drop_last() == s + back.drop_last());
        lemma_trimmed_behind(s, back.drop_last());
    } else {
        assert(all == s);
    }
}

/// Removes white space at both ends.
pub fn trim(s: &str) -> (out: String)
    ensures
        out@ == trimmed(s@),
{
    let chars = chars_of(s);
    let mut from: usize = 0;
    assert(chars@.skip(0) == chars@);
    while from < chars.len() && is_white_space(chars[from])
        invariant
            from <= chars@.len(),
            chars@ == s@,
            trimmed_front(s@) == trimmed_front(chars@.skip(from as int)),
        ensures
            from <= chars@.len(),
            trimmed_front(s@) == chars@.skip(from as int),
        decreases chars@.len() - from,
    {
        assert(chars@.skip(from as int).drop_first() == chars@.skip(from + 1));
        from = from + 1;
    }
    let mut to: usize = chars.len();
    let ghost front = chars@.skip(from as int);
    assert(chars@.subrange(from as int, to as int) == front);
    while from < to && is_white_space(chars[to - 1])
        invariant
            from <= to <= chars@.len(),
            front == chars@.skip(from as int),
            trimmed_back(front) == trimmed_back(chars@.subrange(from as int, to as int)),
        ensures
            from <= to <= chars@.len(),
            trimmed_back(front) == chars@.subrange(from as int, to as int),
        decreases to,
    {
        assert(chars@.subrange(from as int, to as int).drop_last() == chars@.subrange(
            from as int,
            to - 1,
        ));
        to = to - 1;
    }
    text_of(vstd::slice::slice_subrange(chars.as_slice(), from, to))
}

/// Whether two texts are the same.
pub fn same_text(a: &str, b: &str) -> (same: bool)
    ensures
        same == (a@ == b@),
{
    let x = chars_of(a);
    let y = chars_of(b);
    if x.len() != y.len() {
        return false;
    }
    let mut i: usize = 0;
    while i < x.len()
        invariant
            i <= x@.len() == y@.len(),
            x@ == a@,
            y@ == b@,
            forall|k: int| 0 <= k < i ==> x@[k] == y@[k],
        decreases x@.len() - i,
    {
        if x[i] != y[i] {
            return false;
        }
        i = i + 1;
    }
    assert(x@ =~= y@);
    true
}

/// Whether `part` stands in `s` at position `at`.
pub open spec fn stands_at(s: Seq<char>, part: Seq<char>, at: int) -> bool {
    0 <= at && at + part.len() <= s.len() && s.subrange(at, at + part.len()) == part
}

/// Whether `part` stands anywhere in `s`.
pub open spec fn occurs_in(s: Seq<char>, part: Seq<char>) -> bool {
    exists|at: int| stands_at(s, part, at)
}

fn matches_at(s: &Vec<char>, part: &Vec<char>, at: usize) -> (answer: bool)
    requires
        at + part@.len() <= s@.len(),
    ensures
        answer == stands_at(s@, part@, at as int),
{
    let length: usize = s.len();
    let mut i: usize = 0;
    while i < part.len()
        invariant
            i <= part@.len(),
            at + part@.len() <= s@.len(),
            length == s@.len(),
            forall|j: int| 0 <= j < i ==> s@[at + j] == part@[j],
        decreases part@.len() - i,
    {
        if s[at + i] != part[i] {
            assert(s@.subrange(at as int, at + part@.len())[i as int] != part@[i as int]);
            return false;
        }
        i = i + 1;
    }
    assert(s@.subrange(at as int, at + part@.len()) == part@);
    true
}

/// Searches `s` for `part`.
pub fn contains(s: &str, part: &str) -> (answer: bool)
    ensures
        answer == occurs_in(s@, part@),
{
    let text = chars_of(s);
    let wanted = chars_of(part);
    if wanted.len() > text.len() {
        return false;
    }
    let last: usize = text.len() - wanted.len();
    let mut at: usize = 0;
    while at <= last
        invariant
            text@ == s@,
            wanted@ == part@,
            last == text@.len() - wanted@.len(),
            at <= last + 1,
            last < usize::MAX || wanted@.len() == 0,
            forall|j: int| 0 <= j < at ==> !stands_at(s@, part@, j),
        decreases last + 1 - at,
    {
        if matches_at(&text, &wanted, at) {
            return true;
        }
        if at == last {
            return false;
        }
        at = at + 1;
    }
    false
}

/// Whether `s` begins with `part`.
pub fn starts_with(s: &str, part: &str) -> (answer: bool)
    ensures
        answer == stands_at(s@, part@, 0),
{
    let text = chars_of(s);
    let wanted = chars_of(part);
    wanted.len() <= text.len() && matches_at(&text, &wanted, 0)
}

/// Whether a text ends with a part.
pub open spec fn ends_in(s: Seq<char>, part: Seq<char>) -> bool {
    stands_at(s, part, s.len() - part.len())
}

/// Whether a text ends with a part.
pub fn ends_with(s: &str, part: &str) -> (answer: bool)
    ensures
        answer == ends_in(s@, part@),
{
    let text = chars_of(s);
    let wanted = chars_of(part);
    wanted.len() <= text.len() && matches_at(&text, &wanted, text.len() - wanted.len())
}

/// The text without a part at its end, as often as the part stands there.
pub open spec fn stripped_end(s: Seq<char>, part: Seq<char>) -> Seq<char>
    decreases s.len(),
{
    if part.len() > 0 && ends_in(s, part) {
        stripped_end(s.take(s.len() - part.len()), part)
    } else {
        s
    }
}

/// Removes a part at the end, as often as it stands there.
pub fn strip_end(s: &str, part: &str) -> (out: String)
    requires
        part@.len() > 0,
    ensures
        out@ == stripped_end(s@, part@),
{
    let mut text = chars_of(s);
    let wanted = chars_of(part);
    while wanted.len() <= text.len() && matches_at(&text, &wanted, text.len() - wanted.len())
        invariant
            wanted@ == part@,
            wanted@.len() > 0,
            stripped_end(s@, part@) == stripped_end(text@, part@),
        ensures
            stripped_end(s@, part@) == text@,
        decreases text@.len(),
    {
        let keep: usize = text.len() - wanted.len();
        let ghost before = text@;
        text.truncate(keep);
        assert(text@ == before.take(keep as int));
    }
    text_of(text.as_slice())
}

/// The digit character of a number below ten.
pub open spec fn digit_char(d: int) -> char {
    (48 + d) as char
}

/// Whether a character is one of `0` to `9`.
pub open spec fn is_digit(c: char) -> bool {
    '0' <= c <= '9'
}

/// The number that a digit character stands for.
pub open spec fn digit_value(c: char) -> int {
    c as int - 48
}

/// The decimal notation of a number, without leading zeros.
pub open spec fn decimal(n: nat) -> Seq<char>
    decreases n,
{
    if n < 10 {
        seq![digit_char(n as int)]
    } else {
        decimal(n / 10).push(digit_char((n % 10) as int))
    }
}

/// The number that a row of digits stands for.
pub open spec fn digits_value(s: Seq<char>) -> int
    decreases s.len(),
{
    if s.len() == 0 {
        0
    } else {
        10 * digits_value(s.drop_last()) + digit_value(s.last())
    }
}

/// The text without the `+` in front, where there is one.
pub open spec fn without_plus(s: Seq<char>) -> Seq<char> {
    if s.len() > 0 && s[0] == '+' {
        s.skip(1)
    } else {
        s
    }
}

/// What a text stands for as an unsigned number of at most `max`: digits, one or more, perhaps
/// behind one `+`.
pub open spec fn unsigned_value(s: Seq<char>, max: int) -> Option<int> {
    let digits = without_plus(s);
    if digits.len() > 0 && (forall|i: int| 0 <= i < digits.len() ==> is_digit(digits[i]))
        && digits_value(digits) <= max {
        Some(digits_value(digits))
    } else {
        None
    }
}

/// Appends the decimal notation of a number.
pub fn push_decimal(out: &mut String, n: u64)
    ensures
        final(out)@ == old(out)@ + decimal(n as nat),
    decreases n,
{
    if n >= 10 {
        push_decimal(out, n / 10);
    }
    let digit: u8 = (n % 10) as u8;
    let c: char = (48 + digit) as char;
    assert(c == digit_char((n % 10) as int));
    out.push(c);
}

/// Digits in front of a row of digits never make its number smaller.
proof fn lemma_digits_value_grows(s: Seq<char>, k: int)
    requires
        0 <= k <= s.len(),
        forall|i: int| 0 <= i < s.len() ==> is_digit(s[i]),
    ensures
        0 <= digits_value(s.take(k)) <= digits_value(s),
    decreases s.len(),
{
    if k == s.len() {
        assert(s.take(k) == s);
        if k > 0 {
            lemma_digits_value_grows(s.drop_last(), k - 1);
            assert(is_digit(s[k - 1]));
        }
    } else {
        lemma_digits_value_grows(s.drop_last(), k);
        assert(s.drop_last().take(k) == s.take(k));
        assert(is_digit(s[s.len() - 1]));
    }
}

/// Reads an unsigned number of at most `max` the way `str::parse` reads one.
pub fn parse_unsigned(s: &str, max: u64) -> (n: Option<u64>)
    ensures
        match n {
            Some(v) => unsigned_value(s@, max as int) == Some(v as int),
            None => unsigned_value(s@, max as int) is None,
        },
{
    let chars = chars_of(s);
    let from: usize = if chars.len() > 0 && chars[0] == '+' {
        1
    } else {
        0
    };
    let ghost digits = without_plus(s@);
    assert(digits == s@.skip(from as int));
    if chars.len() == from {
        return None;
    }
    let mut value: u64 = 0;
    let mut fits: bool = true;
    let mut i: usize = from;
    assert(digits.take(0).len() == 0);
    while i < chars.len()
        invariant
            from <= i <= chars@.len(),
            chars@ == s@,
            digits == s@.skip(from as int),
            digits == without_plus(s@),
            value <= max,
            forall|j: int| 0 <= j < i - from ==> is_digit(digits[j]),
            fits ==> digits_value(digits.take(i - from)) == value,
            !fits ==> digits_value(digits.take(i - from)) > max,
        decreases chars@.len() - i,
    {
        let c: char = chars[i];
        assert(digits[i - from] == c);
        if !(c >= '0' && c <= '9') {
            assert(!is_digit(digits[i - from]));
            return None;
        }
        let digit: u64 = c as u64 - 48;
        proof {
            assert(digits.take(i + 1 - from).drop_last() == digits.take(i - from));
            lemma_digits_value_grows(digits.take(i + 1 - from), i - from);
            assert(digits.take(i + 1 - from).take(i - from) == digits.take(i - from));
        }
        if fits {
            if value > max / 10 || (value == max / 10 && digit > max % 10) {
                fits = false;
            } else {
                value = value * 10 + digit;
            }
        }
        i = i + 1;
    }
    assert(digits.take(digits.len() as int) == digits);
    if fits {
        Some(value)
    } else {
        None
    }
}

/// Decimal notation read back is the number.
pub proof fn law_decimal_reads_back(n: nat)
    ensures
        unsigned_value(decimal(n), n as int) == Some(n as int),
        decimal(n).len() > 0,
{
    lemma_decimal(n);
    assert(decimal(n)[0] != '+') by {
        assert(is_digit(decimal(n)[0]));
    }
}

/// Decimal notation has no zero in front, but for the number zero.
pub proof fn law_decimal_has_no_zero_in_front(n: nat)
    ensures
        decimal(n)[0] == '0' <==> n == 0,
    decreases n,
{
    lemma_decimal(n);
    if n >= 10 {
        law_decimal_has_no_zero_in_front(n / 10);
        lemma_decimal(n / 10);
        assert(decimal(n)[0] == decimal(n / 10)[0]);
    }
}

/// A text is a number only if it is made of digits, with at most one plus in front, and only if the
/// number is not too large. A further digit makes the number ten times as large, and counts itself.
pub proof fn law_numbers_are_digits(s: Seq<char>, max: int, digit: char)
    ensures
        unsigned_value(s, max) matches Some(n) ==> 0 <= n <= max && s.len() > 0 && (forall|i: int|
            0 <= i < s.len() ==> '0' <= (#[trigger] s[i]) <= '9' || (i == 0 && s[0] == '+')),
        unsigned_value(s, max) is Some && '0' <= digit <= '9' ==> {
            let n = 10 * unsigned_value(s, max).unwrap() + (digit as int - '0' as int);
            unsigned_value(s.push(digit), max) == if n <= max {
                Some(n)
            } else {
                None
            }
        },
        unsigned_value(Seq::empty(), max) is None,
        unsigned_value("+"@, max) is None,
{
    reveal_strlit("+");
    let digits = without_plus(s);
    if unsigned_value(s, max) is Some {
        lemma_digits_value_grows(digits, 0);
        assert(digits.take(0).len() == 0);
        let from = s.len() - digits.len();
        assert forall|i: int| 0 <= i < s.len() implies '0' <= (#[trigger] s[i]) <= '9' || (i == 0
            && s[0] == '+') by {
            if i >= from {
                assert(is_digit(digits[i - from]));
                assert(digits[i - from] == s[i]);
            }
        }
        let more = s.push(digit);
        assert(without_plus(more) =~= digits.push(digit));
        assert(digits.push(digit).drop_last() =~= digits);
        if '0' <= digit <= '9' {
            assert forall|i: int| 0 <= i < digits.push(digit).len() implies is_digit(
                digits.push(digit)[i],
            ) by {
                if i < digits.len() {
                    assert(is_digit(digits[i]));
                }
            }
        }
    }
}

/// White space in front and behind is taken away, and only that: it is what parts a text from what is
/// left of it, and nothing is left of a text that holds nothing else.
pub proof fn law_only_white_space_is_trimmed(s: Seq<char>) -> (r: (Seq<char>, Seq<char>))
    ensures
        s == r.0 + trimmed(s) + r.1,
        blank(r.0),
        blank(r.1),
        trimmed(s).len() > 0 ==> !white_space(trimmed(s)[0]) && !white_space(trimmed(s).last()),
        blank(s) ==> trimmed(s).len() == 0,
{
    let front = lemma_front_is_blank(s);
    let rest = trimmed_front(s);
    let back = lemma_back_is_blank(rest);
    assert(s =~= front + trimmed(s) + back);
    if trimmed(s).len() > 0 {
        assert(trimmed(s)[0] == rest[0]);
        assert(s[front.len() as int] == rest[0]);
    }
    (front, back)
}

proof fn lemma_front_is_blank(s: Seq<char>) -> (front: Seq<char>)
    ensures
        s == front + trimmed_front(s),
        blank(front),
        trimmed_front(s).len() > 0 ==> !white_space(trimmed_front(s)[0]),
    decreases s.len(),
{
    if s.len() > 0 && white_space(s[0]) {
        let more = lemma_front_is_blank(s.drop_first());
        let front = seq![s[0]] + more;
        assert(s =~= front + trimmed_front(s)) by {
            assert(s =~= seq![s[0]] + s.drop_first());
        }
        assert forall|i: int| 0 <= i < front.len() implies white_space(#[trigger] front[i]) by {
            if i > 0 {
                assert(front[i] == more[i - 1]);
            }
        }
        front
    } else {
        assert(s =~= Seq::<char>::empty() + s);
        Seq::empty()
    }
}

proof fn lemma_back_is_blank(s: Seq<char>) -> (back: Seq<char>)
    ensures
        s == trimmed_back(s) + back,
        blank(back),
        trimmed_back(s).len() > 0 ==> !white_space(trimmed_back(s).last()),
    decreases s.len(),
{
    if s.len() > 0 && white_space(s.last()) {
        let more = lemma_back_is_blank(s.drop_last());
        let back = more.push(s.last());
        assert(s =~= trimmed_back(s) + back) by {
            assert(s =~= s.drop_last().push(s.last()));
        }
        assert forall|i: int| 0 <= i < back.len() implies white_space(#[trigger] back[i]) by {
            if i < more.len() {
                assert(back[i] == more[i]);
            }
        }
        back
    } else {
        assert(s =~= s + Seq::<char>::empty());
        Seq::empty()
    }
}

pub proof fn lemma_decimal(n: nat)
    ensures
        decimal(n).len() > 0,
        forall|i: int| 0 <= i < decimal(n).len() ==> is_digit(#[trigger] decimal(n)[i]),
        digits_value(decimal(n)) == n,
    decreases n,
{
    if n < 10 {
        assert(decimal(n).drop_last().len() == 0);
        assert(digits_value(decimal(n).drop_last()) == 0);
    } else {
        lemma_decimal(n / 10);
        assert(decimal(n).drop_last() == decimal(n / 10));
    }
}

} // verus!
