//! What the chat program does with names and typed lines.
use vstd::prelude::*;

verus! {

/// Whether a character has the Unicode property `White_Space`: the tab, line
/// and page controls, the space, and the separators outside of ASCII.
pub open spec fn is_white_space(c: char) -> bool {
    let n = c as int;
    ||| 0x9 <= n <= 0xd
    ||| n == 0x20
    ||| n == 0x85
    ||| n == 0xa0
    ||| n == 0x1680
    ||| 0x2000 <= n <= 0x200a
    ||| n == 0x2028
    ||| n == 0x2029
    ||| n == 0x202f
    ||| n == 0x205f
    ||| n == 0x3000
}

/// `char::is_whitespace` tells whether a character has the Unicode property
/// `White_Space`, which is the list in [`is_white_space`].
pub assume_specification[ char::is_whitespace ](c: char) -> (r: bool)
    ensures
        r == is_white_space(c),
;

/// `rand::random` draws a number. Nothing is claimed of the outcome; that a
/// number is the outcome of such a call is what [`number_drawn`] tells.
#[verifier::external_body]
fn random_u16() -> (n: u16) {
    rand::random::<u16>()
}

/// Whether a number was drawn from the random source. Nothing but a call of it
/// tells so of a number.
pub closed spec fn number_drawn(n: u16) -> bool {
    call_ensures(random_u16, (), n)
}

/// The decimal digit of `n`, for `n` below 10.
pub open spec fn digit(n: int) -> char {
    ('0' as int + n) as char
}

/// The name of the guest with a number: the last four decimal digits of it,
/// with leading zeros.
pub open spec fn guest(n: int) -> Seq<char> {
    "Guest-"@ + seq![digit(n / 1000 % 10), digit(n / 100 % 10), digit(n / 10 % 10), digit(n % 10)]
}

/// The text without leading white space.
pub open spec fn trim_start(s: Seq<char>) -> Seq<char>
    decreases s.len(),
{
    if s.len() > 0 && is_white_space(s.first()) {
        trim_start(s.drop_first())
    } else {
        s
    }
}

/// The text without trailing white space.
pub open spec fn trim_end(s: Seq<char>) -> Seq<char>
    decreases s.len(),
{
    if s.len() > 0 && is_white_space(s.last()) {
        trim_end(s.drop_last())
    } else {
        s
    }
}

/// The text without white space around it.
pub open spec fn trimmed(s: Seq<char>) -> Seq<char> {
    trim_end(trim_start(s))
}

/// One decimal digit.
pub(crate) fn digit_char(n: u16) -> (c: char)
    requires
        n < 10,
    ensures
        c == digit(n as int),
{
    (48 + n as u8) as char
}

/// The name of the guest with a number.
pub fn guest_name(n: u16) -> (name: String)
    ensures
        name@ == guest(n as int),
{
    let mut name = "Guest-".to_owned();
    name.push(digit_char(n / 1000 % 10));
    name.push(digit_char(n / 100 % 10));
    name.push(digit_char(n / 10 % 10));
    name.push(digit_char(n % 10));
    assert(name@ =~= guest(n as int));
    name
}

/// The name that was asked for, or that of a random guest.
pub fn nickname(name: Option<String>) -> (r: String)
    ensures
        match name {
            Some(asked) => r@ == asked@,
            None => {
                &&& exists|n: int| 0 <= n < 10000 && r@ == #[trigger] guest(n)
                &&& exists|n: u16| #[trigger] number_drawn(n) && r@ == guest(n as int % 10000)
            },
        },
{
    match name {
        Some(asked) => asked,
        None => {
            let n: u16 = random_u16();
            assert(number_drawn(n));
            guest_name(n % 10000)
        },
    }
}

/// The name under which a node advertises itself.
pub fn advertised_name(nickname: &str) -> (r: String)
    ensures
        r@ == "blemesh-"@ + nickname@,
{
    let mut r = "blemesh-".to_owned();
    r.append(nickname);
    r
}

/// The message in a typed line: the line without white space around it, unless
/// that leaves nothing.
pub fn chat_text(line: &str) -> (r: Option<String>)
    ensures
        r is Some <==> trimmed(line@).len() > 0,
        r matches Some(text) ==> text@ == trimmed(line@),
{
    let len: usize = line.unicode_len();
    let mut start: usize = 0;
    assert(line@.skip(0) =~= line@);
    while start < len && line.get_char(start).is_whitespace()
        invariant
            len == line@.len(),
            start <= len,
            trim_start(line@) == trim_start(line@.skip(start as int)),
        decreases len - start,
    {
        assert(line@.skip(start as int).drop_first() =~= line@.skip(start + 1));
        start += 1;
    }
    assert(trim_start(line@) =~= line@.skip(start as int));
    let ghost rest = line@.skip(start as int);
    let mut end: usize = len;
    assert(line@.subrange(start as int, end as int) =~= rest);
    while end > start && line.get_char(end - 1).is_whitespace()
        invariant
            len == line@.len(),
            start <= end <= len,
            rest == line@.skip(start as int),
            trim_end(rest) == trim_end(line@.subrange(start as int, end as int)),
        decreases end,
    {
        assert(line@.subrange(start as int, end as int).drop_last() =~= line@.subrange(
            start as int,
            end - 1,
        ));
        end -= 1;
    }
    assert(trim_end(rest) =~= line@.subrange(start as int, end as int));
    if start == end {
        None
    } else {
        Some(line.substring_char(start, end).to_owned())
    }
}

// ---------------------------------------------------------------------------
// Laws
// ---------------------------------------------------------------------------

/// A number that counts as drawn is the outcome of a call of the random source.
proof fn drawn_numbers_come_from_the_source(n: u16)
    requires
        number_drawn(n),
    ensures
        call_ensures(random_u16, (), n),
{
}

/// The number of a guest can be read off the name: four digits, of which the
/// first counts thousands. So different numbers give different names.
pub proof fn guest_number_can_be_read_off(n: int)
    requires
        0 <= n < 10000,
    ensures
        guest(n).len() == 10,
        guest(n).take(6) == "Guest-"@,
        forall|i: int| 6 <= i < 10 ==> '0' <= #[trigger] guest(n)[i] <= '9',
        1000 * (guest(n)[6] as int - '0' as int) + 100 * (guest(n)[7] as int - '0' as int) + 10 * (
        guest(n)[8] as int - '0' as int) + (guest(n)[9] as int - '0' as int) == n,
{
    reveal_strlit("Guest-");
    let name = guest(n);
    assert(name.take(6) =~= "Guest-"@);
    let d3 = n / 1000 % 10;
    let d2 = n / 100 % 10;
    let d1 = n / 10 % 10;
    let d0 = n % 10;
    assert(name[6] == digit(d3) && name[7] == digit(d2) && name[8] == digit(d1) && name[9]
        == digit(d0));
    lemma_digits(n);
    lemma_digit(d3);
    lemma_digit(d2);
    lemma_digit(d1);
    lemma_digit(d0);
}

proof fn lemma_digit(d: int)
    requires
        0 <= d < 10,
    ensures
        digit(d) as int == '0' as int + d,
        '0' <= digit(d) <= '9',
{
}

proof fn lemma_digits(n: int)
    requires
        0 <= n < 10000,
    ensures
        1000 * (n / 1000 % 10) + 100 * (n / 100 % 10) + 10 * (n / 10 % 10) + n % 10 == n,
{
    assert(n / 100 == n / 10 / 10);
    assert(n / 1000 == n / 100 / 10);
}

/// Trimming takes away white space at both ends, all of it and nothing else.
pub proof fn trimming_takes_the_white_space_at_the_ends(s: Seq<char>)
    ensures
        exists|i: int, j: int|
            {
                &&& 0 <= i <= j <= s.len()
                &&& trimmed(s) == #[trigger] s.subrange(i, j)
                &&& forall|k: int| 0 <= k < i || j <= k < s.len() ==> is_white_space(#[trigger] s[k])
                &&& i < j ==> !is_white_space(s[i]) && !is_white_space(s[j - 1])
            },
{
    let i = lemma_trim_start(s);
    let rest = s.skip(i);
    let n = lemma_trim_end(rest);
    let j = i + n;
    assert(trimmed(s) =~= s.subrange(i, j));
    assert forall|k: int| 0 <= k < i || j <= k < s.len() implies is_white_space(#[trigger] s[k]) by {
        if j <= k {
            assert(rest[k - i] == s[k]);
        }
    }
    if i < j {
        assert(rest[0] == s[i]);
        assert(rest[n - 1] == s[j - 1]);
    }
}

proof fn lemma_trim_start(s: Seq<char>) -> (i: int)
    ensures
        0 <= i <= s.len(),
        trim_start(s) == s.skip(i),
        forall|k: int| 0 <= k < i ==> is_white_space(#[trigger] s[k]),
        i < s.len() ==> !is_white_space(s[i]),
    decreases s.len(),
{
    if s.len() > 0 && is_white_space(s.first()) {
        let rest = s.drop_first();
        let i = lemma_trim_start(rest);
        assert(rest.skip(i) =~= s.skip(i + 1));
        assert forall|k: int| 0 <= k < i + 1 implies is_white_space(#[trigger] s[k]) by {
            if k > 0 {
                assert(rest[k - 1] == s[k]);
            }
        }
        i + 1
    } else {
        assert(s.skip(0) =~= s);
        0
    }
}

proof fn lemma_trim_end(s: Seq<char>) -> (n: int)
    ensures
        0 <= n <= s.len(),
        trim_end(s) == s.take(n),
        forall|k: int| n <= k < s.len() ==> is_white_space(#[trigger] s[k]),
        n > 0 ==> !is_white_space(s[n - 1]),
    decreases s.len(),
{
    if s.len() > 0 && is_white_space(s.last()) {
        let front = s.drop_last();
        let n = lemma_trim_end(front);
        assert(front.take(n) =~= s.take(n));
        assert forall|k: int| n <= k < s.len() implies is_white_space(#[trigger] s[k]) by {
            if k < front.len() {
                assert(front[k] == s[k]);
            }
        }
        n
    } else {
        assert(s.take(s.len() as int) =~= s);
        s.len() as int
    }
}

} // verus!
