use vstd::prelude::*;

verus! {

/// The characters that separate the values of a line: those with the Unicode
/// property `White_Space`.
pub open spec fn is_whitespace(c: char) -> bool {
    let n = c as u32;
    ||| 0x09 <= n <= 0x0D
    ||| n == 0x20
    ||| n == 0x85
    ||| n == 0xA0
    ||| n == 0x1680
    ||| 0x2000 <= n <= 0x200A
    ||| n == 0x2028
    ||| n == 0x2029
    ||| n == 0x202F
    ||| n == 0x205F
    ||| n == 0x3000
}

/// One of the ten decimal digits.
pub open spec fn is_digit(c: char) -> bool {
    '0' <= c <= '9'
}

/// The number that a string of decimal digits denotes.
pub open spec fn decimal_value(digits: Seq<char>) -> nat
    decreases digits.len(),
{
    if digits.len() == 0 {
        0
    } else {
        (decimal_value(digits.drop_last()) * 10 + (digits.last() as int - '0' as int)) as nat
    }
}

/// Every character is a decimal digit.
pub open spec fn all_digits(s: Seq<char>) -> bool {
    forall|i: int| 0 <= i < s.len() ==> is_digit(#[trigger] s[i])
}

/// The value of a token: decimal digits, at least one, after an optional
/// plus sign, denoting a number of at most 255.
pub open spec fn parse_number(token: Seq<char>) -> Option<u8> {
    let digits = if token.len() > 0 && token[0] == '+' {
        token.skip(1)
    } else {
        token
    };
    if digits.len() > 0 && all_digits(digits) && decimal_value(digits) <= 255 {
        Some(decimal_value(digits) as u8)
    } else {
        None
    }
}

/// The length of the run of characters other than whitespace at the start of
/// `s`.
pub open spec fn word_len(s: Seq<char>) -> nat
    decreases s.len(),
{
    if s.len() == 0 || is_whitespace(s[0]) {
        0
    } else {
        1 + word_len(s.drop_first())
    }
}

/// The run at the start of `s` is no longer than `s`.
pub proof fn lemma_word_len_bound(s: Seq<char>)
    ensures
        word_len(s) <= s.len(),
    decreases s.len(),
{
    if s.len() > 0 && !is_whitespace(s[0]) {
        lemma_word_len_bound(s.drop_first());
    }
}

/// The maximal runs of characters other than whitespace in `s`, from left to
/// right.
pub open spec fn words(s: Seq<char>) -> Seq<Seq<char>>
    decreases s.len(),
{
    if s.len() == 0 {
        Seq::empty()
    } else if is_whitespace(s[0]) {
        words(s.drop_first())
    } else {
        let n = word_len(s) as int;
        proof {
            lemma_word_len_bound(s);
        }
        seq![s.take(n)] + words(s.skip(n))
    }
}

/// The values of a line, if each of its words is a number.
pub open spec fn parse_record(line: Seq<char>) -> Option<Seq<u8>> {
    let w = words(line);
    if forall|i: int| 0 <= i < w.len() ==> (#[trigger] parse_number(w[i])) is Some {
        Some(Seq::new(w.len(), |i: int| parse_number(w[i]).unwrap()))
    } else {
        None
    }
}

/// Whether `c` separates the values of a line.
pub fn is_space(c: char) -> (r: bool)
    ensures
        r == is_whitespace(c),
{
    let n: u32 = c as u32;
    (0x09 <= n && n <= 0x0D) || n == 0x20 || n == 0x85 || n == 0xA0 || n == 0x1680 || (0x2000 <= n
        && n <= 0x200A) || n == 0x2028 || n == 0x2029 || n == 0x202F || n == 0x205F || n == 0x3000
}

/// The characters of `s`, one by one.
pub fn chars_of(s: &str) -> (r: Vec<char>)
    ensures
        r@ == s@,
{
    let mut out: Vec<char> = Vec::new();
    for c in it: s.chars()
        invariant
            out@ == it.seq().take(it.index() as int),
            it.seq() == s@,
    {
        out.push(c);
    }
    out
}

/// A longer string of digits denotes no smaller number.
proof fn lemma_decimal_value_grows(digits: Seq<char>, k: int)
    requires
        0 <= k <= digits.len(),
        all_digits(digits),
    ensures
        decimal_value(digits.take(k)) <= decimal_value(digits),
    decreases digits.len(),
{
    if k < digits.len() {
        let front = digits.drop_last();
        assert(front.take(k) =~= digits.take(k));
        lemma_decimal_value_grows(front, k);
        assert(is_digit(digits.last()));
    } else {
        assert(digits.take(k) =~= digits);
    }
}

/// The value of the token that `chars` holds from `from` up to `to`.
pub fn parse_token(chars: &Vec<char>, from: usize, to: usize) -> (r: Option<u8>)
    requires
        from <= to <= chars.len(),
    ensures
        r == parse_number(chars@.subrange(from as int, to as int)),
{
    let ghost token = chars@.subrange(from as int, to as int);
    let start: usize = if from < to && chars[from] == '+' {
        from + 1
    } else {
        from
    };
    let ghost digits = chars@.subrange(start as int, to as int);
    assert(digits =~= if token.len() > 0 && token[0] == '+' {
        token.skip(1)
    } else {
        token
    });
    if start == to {
        return None;
    }
    let mut value: u32 = 0;
    let mut i: usize = start;
    while i < to
        invariant
            from <= start <= i <= to <= chars.len(),
            token == chars@.subrange(from as int, to as int),
            digits == chars@.subrange(start as int, to as int),
            digits == if token.len() > 0 && token[0] == '+' {
                token.skip(1)
            } else {
                token
            },
            all_digits(digits.take(i - start)),
            value == decimal_value(digits.take(i - start)),
            value <= 255,
        decreases to - i,
    {
        let c = chars[i];
        let ghost seen = digits.take(i + 1 - start);
        assert(seen.drop_last() =~= digits.take(i - start));
        assert(seen.last() == c);
        if !('0' <= c && c <= '9') {
            assert(!is_digit(digits[i - start]));
            return None;
        }
        assert(all_digits(seen)) by {
            assert forall|k: int| 0 <= k < seen.len() implies is_digit(#[trigger] seen[k]) by {
                if k < seen.len() - 1 {
                    assert(seen[k] == digits.take(i - start)[k]);
                }
            }
        }
        let digit: u32 = c as u32 - '0' as u32;
        value = value * 10 + digit;
        if value > 255 {
            proof {
                if all_digits(digits) {
                    lemma_decimal_value_grows(digits, i + 1 - start);
                }
            }
            return None;
        }
        i += 1;
    }
    assert(digits.take(i - start) =~= digits);
    Some(value as u8)
}

/// The run that starts `s` ends where `s` ends or whitespace begins.
proof fn lemma_word_len_split(s: Seq<char>, k: int)
    requires
        0 <= k <= s.len(),
        forall|i: int| 0 <= i < k ==> !is_whitespace(#[trigger] s[i]),
    ensures
        word_len(s) == k + word_len(s.skip(k)),
    decreases k,
{
    if k == 0 {
        assert(s.skip(0) =~= s);
    } else {
        let rest = s.drop_first();
        assert forall|i: int| 0 <= i < k - 1 implies !is_whitespace(#[trigger] rest[i]) by {
            assert(rest[i] == s[i + 1]);
        }
        lemma_word_len_split(rest, k - 1);
        assert(rest.skip(k - 1) =~= s.skip(k));
    }
}

/// The values of a line, if each of its words is a number.
pub fn parse_line(line: &str) -> (r: Option<Vec<u8>>)
    ensures
        r is Some <==> parse_record(line@) is Some,
        r matches Some(v) ==> v@ == parse_record(line@).unwrap(),
{
    let chars = chars_of(line);
    let n = chars.len();
    let mut out: Vec<u8> = Vec::new();
    let ghost mut done: Seq<Seq<char>> = Seq::empty();
    let mut i: usize = 0;
    assert(chars@.skip(0) =~= chars@);
    while i < n
        invariant
            i <= n == chars.len(),
            chars@ == line@,
            words(chars@) == done + words(chars@.skip(i as int)),
            out.len() == done.len(),
            forall|k: int| 0 <= k < done.len() ==> parse_number(#[trigger] done[k]) == Some(out[k]),
        decreases n - i,
    {
        let ghost rest = chars@.skip(i as int);
        if is_space(chars[i]) {
            assert(rest.drop_first() =~= chars@.skip(i + 1));
            i += 1;
        } else {
            let start = i;
            let mut j: usize = i + 1;
            while j < n && !is_space(chars[j])
                invariant
                    start < j <= n == chars.len(),
                    forall|k: int| start <= k < j ==> !is_whitespace(#[trigger] chars[k]),
                decreases n - j,
            {
                j += 1;
            }
            let ghost token = chars@.subrange(start as int, j as int);
            proof {
                lemma_word_len_split(rest, j - start);
                assert(rest.skip(j - start) =~= chars@.skip(j as int));
                assert(word_len(chars@.skip(j as int)) == 0);
                assert(rest.take(j - start) =~= token);
                assert(words(rest) == seq![token] + words(chars@.skip(j as int)));
                assert(words(chars@) =~= done.push(token) + words(chars@.skip(j as int)));
            }
            match parse_token(&chars, start, j) {
                None => {
                    assert(words(chars@)[done.len() as int] == token);
                    return None;
                },
                Some(value) => {
                    out.push(value);
                    proof {
                        done = done.push(token);
                    }
                },
            }
            i = j;
        }
    }
    proof {
        assert(words(chars@.skip(i as int)) =~= Seq::<Seq<char>>::empty());
        assert(words(chars@) =~= done);
        assert(out@ =~= parse_record(line@).unwrap());
    }
    Some(out)
}

} // verus!
