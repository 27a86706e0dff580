//! Characters, decimal numbers and tokens.

use vstd::prelude::*;

verus! {

/// The characters of `s`, in order.
pub fn chars_of(s: &str) -> (out: Vec<char>)
    ensures
        out@ == s@,
{
    let mut out: Vec<char> = Vec::new();
    for c in it: s.chars()
        invariant
            out@ == it.seq().take(it.index() as int),
            it.seq() == s@,
    {
        out.push(c);
    }
    out
}

/// `String::from_iter` over a vector of characters: the string holds exactly
/// those characters, in order.
#[verifier::external_body]
pub(crate) fn string_of(chars: &Vec<char>) -> (out: String)
    ensures
        out@ == chars@,
{
    String::from_iter(chars.iter())
}

/// White space: the code points that Unicode gives the property White_Space.
pub open spec fn is_space(c: char) -> bool {
    let n = c as u32;
    ||| 0x09 <= n <= 0x0d
    ||| n == 0x20
    ||| n == 0x85
    ||| n == 0xa0
    ||| n == 0x1680
    ||| 0x2000 <= n <= 0x200a
    ||| n == 0x2028
    ||| n == 0x2029
    ||| n == 0x202f
    ||| n == 0x205f
    ||| n == 0x3000
}

/// Whether a character is white space.
pub fn space(c: char) -> (r: bool)
    ensures
        r == is_space(c),
{
    let n: u32 = c as u32;
    (0x09 <= n && n <= 0x0d) || n == 0x20 || n == 0x85 || n == 0xa0 || n == 0x1680 || (0x2000 <= n
        && n <= 0x200a) || n == 0x2028 || n == 0x2029 || n == 0x202f || n == 0x205f || n == 0x3000
}

/// A decimal digit, `'0'` to `'9'`.
pub open spec fn is_digit(c: char) -> bool {
    48 <= c as u32 <= 57
}

/// The number a digit stands for.
pub open spec fn digit_value(c: char) -> int {
    c as u32 - 48
}

/// The digit that stands for `d`, for `d` below ten.
pub open spec fn digit_char(d: int) -> char {
    ((d + 48) as u8) as char
}

/// The number written by a string of digits; the empty string writes zero.
pub open spec fn number(s: Seq<char>) -> nat
    decreases s.len(),
{
    if s.len() == 0 {
        0
    } else {
        (number(s.drop_last()) * 10 + digit_value(s.last())) as nat
    }
}

/// Every character is a digit.
pub open spec fn all_digits(s: Seq<char>) -> bool {
    forall|i: int| 0 <= i < s.len() ==> is_digit(#[trigger] s[i])
}

/// The shortest decimal writing of `n`.
pub open spec fn decimal(n: nat) -> Seq<char>
    decreases n,
{
    if n < 10 {
        seq![digit_char(n as int)]
    } else {
        decimal(n / 10).push(digit_char((n % 10) as int))
    }
}

/// The decimal writing of an integer, with `-` before a negative one.
pub open spec fn signed_decimal(i: int) -> Seq<char> {
    if i < 0 {
        seq!['-'] + decimal((-i) as nat)
    } else {
        decimal(i as nat)
    }
}

/// A decimal writing is made of digits, is not empty, and reads back as the
/// number it was made from.
pub proof fn lemma_decimal(n: nat)
    ensures
        decimal(n).len() > 0,
        all_digits(decimal(n)),
        number(decimal(n)) == n,
    decreases n,
{
    if n < 10 {
        assert(number(decimal(n).drop_last()) == 0);
    } else {
        lemma_decimal(n / 10);
        assert(decimal(n).drop_last() =~= decimal(n / 10));
    }
}

/// Appends the decimal writing of `n`.
pub fn push_decimal(out: &mut Vec<char>, n: u64)
    ensures
        final(out)@ == old(out)@ + decimal(n as nat),
    decreases n,
{
    if n >= 10 {
        push_decimal(out, n / 10);
    }
    let d: u8 = (n % 10) as u8;
    out.push((d + 48) as char);
}

/// A longer string of digits writes a number that is no smaller.
pub proof fn lemma_number_grows(s: Seq<char>, k: int)
    requires
        all_digits(s),
        0 <= k <= s.len(),
    ensures
        number(s.take(k)) <= number(s),
    decreases s.len() - k,
{
    if k == s.len() {
        assert(s.take(k) =~= s);
    } else {
        lemma_number_grows(s, k + 1);
        assert(s.take(k + 1).drop_last() =~= s.take(k));
    }
}

/// What an unsigned decimal text stands for: an optional `+`, then at least
/// one digit, the whole no greater than `max`.
pub open spec fn unsigned_of(s: Seq<char>, max: nat) -> Option<nat> {
    let body = if s.len() > 0 && s[0] == '+' {
        s.drop_first()
    } else {
        s
    };
    if body.len() > 0 && all_digits(body) && number(body) <= max {
        Some(number(body))
    } else {
        None
    }
}

/// What a signed decimal text stands for: an optional `+` or `-`, then at
/// least one digit, the whole between `-below` and `max`.
pub open spec fn signed_of(s: Seq<char>, below: nat, max: nat) -> Option<int> {
    if s.len() > 0 && s[0] == '-' {
        let body = s.drop_first();
        if body.len() > 0 && all_digits(body) && number(body) <= below {
            Some(-(number(body) as int))
        } else {
            None
        }
    } else {
        match unsigned_of(s, max) {
            Some(n) => Some(n as int),
            None => None,
        }
    }
}

/// The decimal writing of an integer reads back as that integer.
pub proof fn lemma_signed_decimal(i: int, below: nat, max: nat)
    requires
        -below <= i <= max,
    ensures
        signed_of(signed_decimal(i), below, max) == Some(i),
        signed_decimal(i).len() > 0,
        forall|k: int|
            0 <= k < signed_decimal(i).len() ==> is_digit(#[trigger] signed_decimal(i)[k])
                || signed_decimal(i)[k] == '-',
{
    let s = signed_decimal(i);
    if i < 0 {
        lemma_decimal((-i) as nat);
        assert(s.drop_first() =~= decimal((-i) as nat));
    } else {
        lemma_decimal(i as nat);
    }
}

/// Reads the digits of `s` from `from` to the end.
pub fn read_digits(s: &Vec<char>, from: usize, max: u64) -> (r: Option<u64>)
    requires
        from <= s.len(),
    ensures
        r == ({
            let body = s@.subrange(from as int, s.len() as int);
            if body.len() > 0 && all_digits(body) && number(body) <= max {
                Some(number(body) as u64)
            } else {
                None
            }
        }),
{
    let ghost body = s@.subrange(from as int, s.len() as int);
    if from == s.len() {
        return None;
    }
    let mut acc: u64 = 0;
    let mut i: usize = from;
    while i < s.len()
        invariant
            from <= i <= s.len(),
            body == s@.subrange(from as int, s.len() as int),
            all_digits(body.take(i - from)),
            acc == number(body.take(i - from)),
            acc <= max,
        decreases s.len() - i,
    {
        let c = s[i];
        let n: u32 = c as u32;
        if n < 48 || n > 57 {
            assert(!is_digit(body[i - from]));
            return None;
        }
        let next: u128 = acc as u128 * 10 + (n - 48) as u128;
        proof {
            let longer = body.take(i - from + 1);
            assert(longer.drop_last() =~= body.take(i - from));
        }
        if next > max as u128 {
            proof {
                if all_digits(body) {
                    lemma_number_grows(body, i - from + 1);
                }
            }
            return None;
        }
        acc = next as u64;
        i += 1;
    }
    assert(body.take(i - from) =~= body);
    Some(acc)
}

/// The text without the white space at its end.
pub open spec fn trim_end(s: Seq<char>) -> Seq<char>
    decreases s.len(),
{
    if s.len() > 0 && is_space(s.last()) {
        trim_end(s.drop_last())
    } else {
        s
    }
}

/// The text without the white space at its start.
pub open spec fn trim_start(s: Seq<char>) -> Seq<char>
    decreases s.len(),
{
    if s.len() > 0 && is_space(s.first()) {
        trim_start(s.drop_first())
    } else {
        s
    }
}

/// The text without the white space at either end.
pub open spec fn trim(s: Seq<char>) -> Seq<char> {
    trim_start(trim_end(s))
}

/// The characters of `s` between the white space at its ends.
pub fn trimmed(s: &Vec<char>) -> (out: Vec<char>)
    ensures
        out@ == trim(s@),
{
    let mut hi: usize = s.len();
    assert(s@.take(hi as int) =~= s@);
    while hi > 0 && space(s[hi - 1])
        invariant
            hi <= s.len(),
            trim_end(s@) == trim_end(s@.take(hi as int)),
        decreases hi,
    {
        assert(s@.take(hi as int).drop_last() =~= s@.take(hi - 1));
        hi -= 1;
    }
    let mut lo: usize = 0;
    while lo < hi && space(s[lo])
        invariant
            lo <= hi <= s.len(),
            trim(s@) == trim_start(s@.subrange(lo as int, hi as int)),
        decreases hi - lo,
    {
        assert(s@.subrange(lo as int, hi as int).drop_first() =~= s@.subrange(lo + 1, hi as int));
        lo += 1;
    }
    let mut out: Vec<char> = Vec::new();
    let mut i: usize = lo;
    while i < hi
        invariant
            lo <= i <= hi <= s.len(),
            out@ == s@.subrange(lo as int, i as int),
        decreases hi - i,
    {
        out.push(s[i]);
        i += 1;
    }
    out
}

/// The pieces of `s` between the occurrences of `sep`. There is always at
/// least one piece; a text that ends in `sep` has an empty last piece.
pub open spec fn split(s: Seq<char>, sep: char) -> Seq<Seq<char>>
    decreases s.len(),
{
    if s.len() == 0 {
        seq![Seq::empty()]
    } else if s.last() == sep {
        split(s.drop_last(), sep).push(Seq::empty())
    } else {
        let before = split(s.drop_last(), sep);
        before.drop_last().push(before.last().push(s.last()))
    }
}

/// The views of a vector of character vectors.
pub open spec fn texts(parts: Seq<Vec<char>>) -> Seq<Seq<char>> {
    Seq::new(parts.len(), |i: int| parts[i]@)
}

/// Cuts `s` at every `sep`.
pub fn split_at(s: &Vec<char>, sep: char) -> (out: Vec<Vec<char>>)
    ensures
        texts(out@) == split(s@, sep),
{
    let mut out: Vec<Vec<char>> = Vec::new();
    let mut piece: Vec<char> = Vec::new();
    let mut i: usize = 0;
    while i < s.len()
        invariant
            i <= s.len(),
            texts(out@).push(piece@) == split(s@.take(i as int), sep),
        decreases s.len() - i,
    {
        assert(s@.take(i + 1).drop_last() =~= s@.take(i as int));
        if s[i] == sep {
            out.push(piece);
            piece = Vec::new();
        } else {
            piece.push(s[i]);
        }
        i += 1;
    }
    assert(s@.take(i as int) =~= s@);
    out.push(piece);
    out
}

/// The parts put together with `sep` between each two.
pub open spec fn joined(parts: Seq<Seq<char>>, sep: Seq<char>) -> Seq<char>
    decreases parts.len(),
{
    if parts.len() == 0 {
        Seq::empty()
    } else if parts.len() == 1 {
        parts[0]
    } else {
        joined(parts.drop_last(), sep) + sep + parts.last()
    }
}

/// No character of `s` is `c`.
pub open spec fn free_of(s: Seq<char>, c: char) -> bool {
    forall|i: int| 0 <= i < s.len() ==> #[trigger] s[i] != c
}

/// Splitting a text that goes on with `t`, where `t` holds no separator,
/// lengthens the last piece by `t`.
pub proof fn lemma_split_append(s: Seq<char>, t: Seq<char>, sep: char)
    requires
        free_of(t, sep),
    ensures
        split(s + t, sep) == split(s, sep).drop_last().push(split(s, sep).last() + t),
    decreases t.len(),
{
    if t.len() > 0 {
        let shorter = t.drop_last();
        lemma_split_append(s, shorter, sep);
        assert((s + t).drop_last() =~= s + shorter);
        let before = split(s + shorter, sep);
        assert(before.last().push(t.last()) =~= split(s, sep).last() + t);
    }
}

/// Splitting what was joined gives the parts back, where no part holds the
/// separator and there is at least one part.
pub proof fn lemma_split_joined(parts: Seq<Seq<char>>, sep: char)
    requires
        parts.len() >= 1,
        forall|i: int| 0 <= i < parts.len() ==> free_of(#[trigger] parts[i], sep),
    ensures
        split(joined(parts, seq![sep]), sep) == parts,
    decreases parts.len(),
{
    if parts.len() == 1 {
        lemma_split_append(Seq::empty(), parts[0], sep);
    } else {
        let init = parts.drop_last();
        lemma_split_joined(init, sep);
        let head = joined(init, seq![sep]);
        assert(head + seq![sep] =~= head.push(sep));
        assert(head.push(sep).drop_last() =~= head);
        lemma_split_append(head + seq![sep], parts.last(), sep);
    }
}

/// Every character of `s` passes `test`.
pub open spec fn all_chars(s: Seq<char>, test: spec_fn(char) -> bool) -> bool {
    forall|i: int| 0 <= i < s.len() ==> test(#[trigger] s[i])
}

/// What was joined from parts that are not empty starts as the first part
/// starts and ends as the last part ends; and where every character of the
/// parts and of the separator passes a test, every character of the whole
/// passes it.
pub proof fn lemma_joined_chars(parts: Seq<Seq<char>>, sep: Seq<char>, test: spec_fn(char) -> bool)
    requires
        parts.len() >= 1,
        forall|i: int| 0 <= i < parts.len() ==> (#[trigger] parts[i]).len() > 0,
        forall|i: int| 0 <= i < parts.len() ==> all_chars(#[trigger] parts[i], test),
        all_chars(sep, test),
    ensures
        joined(parts, sep).len() > 0,
        joined(parts, sep).first() == parts.first().first(),
        joined(parts, sep).last() == parts.last().last(),
        all_chars(joined(parts, sep), test),
    decreases parts.len(),
{
    if parts.len() > 1 {
        let init = parts.drop_last();
        lemma_joined_chars(init, sep, test);
    }
}

/// Whether two texts hold the same characters.
pub fn same_text(a: &str, b: &str) -> (r: bool)
    ensures
        r == (a@ == b@),
{
    let x = chars_of(a);
    let y = chars_of(b);
    if x.len() != y.len() {
        return false;
    }
    let mut i: usize = 0;
    while i < x.len()
        invariant
            i <= x.len(),
            x.len() == y.len(),
            x@ == a@,
            y@ == b@,
            forall|k: int| 0 <= k < i ==> x@[k] == y@[k],
        decreases x.len() - i,
    {
        if x[i] != y[i] {
            return false;
        }
        i += 1;
    }
    assert(x@ =~= y@);
    true
}

/// The decimal writing of a number.
pub fn number_text(n: usize) -> (out: String)
    ensures
        out@ == decimal(n as nat),
{
    let mut chars: Vec<char> = Vec::new();
    push_decimal(&mut chars, n as u64);
    string_of(&chars)
}

/// What `str::to_lowercase` makes of a text.
pub uninterp spec fn lowercase(s: Seq<char>) -> Seq<char>;

/// `str::to_lowercase`: the text in lower case, as Unicode defines it.
#[verifier::external_body]
pub(crate) fn to_lowercase(s: &str) -> (out: String)
    ensures
        out@ == lowercase(s@),
{
    s.to_lowercase()
}

/// The index of the first text of the list that equals `item`.
pub open spec fn position(list: Seq<Seq<char>>, item: Seq<char>) -> Option<int>
    decreases list.len(),
{
    if list.len() == 0 {
        None
    } else {
        match position(list.drop_last(), item) {
            Some(k) => Some(k),
            None => if list.last() == item {
                Some(list.len() - 1)
            } else {
                None
            },
        }
    }
}

/// The first text that equals `item` stands at the index given, and none
/// before it.
pub proof fn lemma_position(list: Seq<Seq<char>>, item: Seq<char>)
    ensures
        match position(list, item) {
            Some(k) => 0 <= k < list.len() && list[k] == item && forall|j: int|
                0 <= j < k ==> list[j] != item,
            None => forall|j: int| 0 <= j < list.len() ==> list[j] != item,
        },
    decreases list.len(),
{
    if list.len() > 0 {
        lemma_position(list.drop_last(), item);
        assert forall|j: int| 0 <= j < list.len() - 1 implies list[j] == list.drop_last()[j] by {}
    }
}

/// The index of the first string of the list that equals `item`.
pub fn find_text(list: &Vec<String>, item: &str) -> (r: Option<usize>)
    ensures
        match r {
            Some(k) => position(list.deep_view(), item@) == Some(k as int) && k < list.len(),
            None => position(list.deep_view(), item@) is None,
        },
{
    let mut i: usize = 0;
    while i < list.len()
        invariant
            i <= list.len(),
            forall|j: int| 0 <= j < i ==> list.deep_view()[j] != item@,
        decreases list.len() - i,
    {
        if same_text(list[i].as_str(), item) {
            proof {
                lemma_position(list.deep_view(), item@);
                assert(list.deep_view()[i as int] == item@);
            }
            return Some(i);
        }
        i += 1;
    }
    proof {
        lemma_position(list.deep_view(), item@);
    }
    None
}

/// Reads an unsigned decimal number: an optional `+`, then digits.
pub fn read_unsigned(s: &str) -> (r: Option<usize>)
    ensures
        match r {
            Some(n) => unsigned_of(s@, usize::MAX as nat) == Some(n as nat),
            None => unsigned_of(s@, usize::MAX as nat) is None,
        },
{
    let chars = chars_of(s);
    let from: usize = if chars.len() > 0 && chars[0] == '+' {
        1
    } else {
        0
    };
    proof {
        if from == 0 {
            assert(s@ =~= chars@.subrange(0, chars.len() as int));
        }
    }
    match read_digits(&chars, from, usize::MAX as u64) {
        Some(n) => Some(n as usize),
        None => None,
    }
}

} // verus!
