//! Operations on the characters of strings that the rules use.

use vstd::prelude::*;

verus! {

/// `String::push` appends one character.
pub assume_specification[ std::string::String::push ](buf: &mut std::string::String, ch: char)
    ensures
        final(buf)@ == old(buf)@.push(ch),
;

/// The characters of the Unicode `White_Space` property, which is what
/// `char::is_whitespace` and `str::trim` go by.
pub open spec fn is_white_space(c: char) -> bool {
    let u = c as u32;
    ||| 0x9 <= u <= 0xd
    ||| u == 0x20
    ||| u == 0x85
    ||| u == 0xa0
    ||| u == 0x1680
    ||| 0x2000 <= u <= 0x200a
    ||| u == 0x2028
    ||| u == 0x2029
    ||| u == 0x202f
    ||| u == 0x205f
    ||| u == 0x3000
}

/// `s` without its leading white space.
pub open spec fn trim_start(s: Seq<char>) -> Seq<char>
    decreases s.len(),
{
    if s.len() > 0 && is_white_space(s[0]) {
        trim_start(s.drop_first())
    } else {
        s
    }
}

/// `s` without its trailing white space.
pub open spec fn trim_end(s: Seq<char>) -> Seq<char>
    decreases s.len(),
{
    if s.len() > 0 && is_white_space(s.last()) {
        trim_end(s.drop_last())
    } else {
        s
    }
}

/// `s` without its leading and trailing white space.
pub open spec fn trim(s: Seq<char>) -> Seq<char> {
    trim_end(trim_start(s))
}

/// `str::trim`: std documents that it returns the string with leading and
/// trailing white space removed, white space being the Unicode
/// `White_Space` property; the contract states this with that property's
/// code points as `is_white_space` lists them.
#[verifier::external_body]
fn str_trim(s: &str) -> (r: &str)
    ensures
        r@ == trim(s@),
{
    s.trim()
}

/// `s` with leading and trailing white space removed.
pub fn trim_string(s: &String) -> (r: String)
    ensures
        r@ == trim(s@),
{
    String::from_str(str_trim(s.as_str()))
}

/// What `str::to_lowercase` returns for a string, by the Unicode case tables.
pub uninterp spec fn lowercase(s: Seq<char>) -> Seq<char>;

/// What `str::to_uppercase` returns for a string, by the Unicode case tables.
pub uninterp spec fn uppercase(s: Seq<char>) -> Seq<char>;

/// `str::to_lowercase`: its result depends on the characters of `s` alone;
/// the mapping itself (the Unicode tables) is not stated and is named
/// `lowercase`.
#[verifier::external_body]
fn str_to_lowercase(s: &str) -> (r: String)
    ensures
        r@ == lowercase(s@),
{
    s.to_lowercase()
}

/// `str::to_uppercase`: its result depends on the characters of `s` alone;
/// the mapping itself (the Unicode tables) is not stated and is named
/// `uppercase`.
#[verifier::external_body]
fn str_to_uppercase(s: &str) -> (r: String)
    ensures
        r@ == uppercase(s@),
{
    s.to_uppercase()
}

/// `s` in lower case.
pub fn lowercase_string(s: &String) -> (r: String)
    ensures
        r@ == lowercase(s@),
{
    str_to_lowercase(s.as_str())
}

/// `s` in upper case.
pub fn uppercase_string(s: &String) -> (r: String)
    ensures
        r@ == uppercase(s@),
{
    str_to_uppercase(s.as_str())
}

/// The first `n` characters of `s`, or all of `s` when it is shorter.
pub open spec fn truncate(s: Seq<char>, n: nat) -> Seq<char> {
    if s.len() <= n {
        s
    } else {
        s.take(n as int)
    }
}

/// The first `n` characters of `s` (all of them when `s` has fewer).
pub fn truncate_string(s: &String, n: usize) -> (r: String)
    ensures
        r@ == truncate(s@, n as nat),
{
    let mut out = String::new();
    let mut taken: usize = 0;
    for c in it: s.chars()
        invariant
            it.seq() == s@,
            it.index() <= s@.len(),
            taken as int == if it.index() <= n {
                it.index() as int
            } else {
                n as int
            },
            out@ == s@.take(taken as int),
    {
        if taken < n {
            proof {
                assert(s@.take(taken + 1) == s@.take(taken as int).push(c));
            }
            out.push(c);
            taken = taken + 1;
        }
    }
    proof {
        assert(s@.take(s@.len() as int) == s@);
    }
    out
}

/// `s` without the characters that occur in `stripped`.
pub open spec fn strip(s: Seq<char>, stripped: Seq<char>) -> Seq<char> {
    s.filter(|c: char| !stripped.contains(c))
}

/// Whether `c` occurs in `chars`.
fn contains_char(chars: &Vec<char>, c: char) -> (r: bool)
    ensures
        r == chars@.contains(c),
{
    let mut i: usize = 0;
    while i < chars.len()
        invariant
            i <= chars.len(),
            forall|j: int| 0 <= j < i ==> chars@[j] != c,
        decreases chars.len() - i,
    {
        if chars[i] == c {
            return true;
        }
        i = i + 1;
    }
    false
}

/// The characters of `s`, in order.
fn chars_of(s: &String) -> (r: Vec<char>)
    ensures
        r@ == s@,
{
    let mut out: Vec<char> = Vec::new();
    for c in it: s.chars()
        invariant
            it.seq() == s@,
            it.index() <= s@.len(),
            out@ == s@.take(it.index() as int),
    {
        proof {
            assert(s@.take(it.index() + 1) == s@.take(it.index() as int).push(c));
        }
        out.push(c);
    }
    proof {
        assert(s@.take(s@.len() as int) == s@);
    }
    out
}

/// `s` with every character that occurs in `stripped` removed.
pub fn strip_string(s: &String, stripped: &String) -> (r: String)
    ensures
        r@ == strip(s@, stripped@),
{
    let set = chars_of(stripped);
    let ghost keep = |c: char| !stripped@.contains(c);
    let mut out = String::new();
    for c in it: s.chars()
        invariant
            it.seq() == s@,
            it.index() <= s@.len(),
            set@ == stripped@,
            keep == (|c: char| !stripped@.contains(c)),
            out@ == s@.take(it.index() as int).filter(keep),
    {
        proof {
            let next = s@.take(it.index() + 1);
            assert(next.drop_last() == s@.take(it.index() as int));
            assert(next.last() == c);
            reveal_with_fuel(Seq::<_>::filter, 1);
        }
        if !contains_char(&set, c) {
            out.push(c);
        }
    }
    proof {
        assert(s@.take(s@.len() as int) == s@);
    }
    out
}

/// The decimal digit of `d`.
pub open spec fn digit_char(d: nat) -> char {
    (48 + d) as char
}

/// The decimal representation of `n`, without leading zeros.
pub open spec fn decimal(n: nat) -> Seq<char>
    decreases n,
{
    if n < 10 {
        seq![digit_char(n)]
    } else {
        decimal(n / 10).push(digit_char(n % 10))
    }
}

/// The decimal representation of `n`.
pub fn decimal_string(n: usize) -> (r: String)
    ensures
        r@ == decimal(n as nat),
    decreases n,
{
    let d = n % 10;
    let c = ((48 + d) as u8) as char;
    if n < 10 {
        let mut out = String::new();
        out.push(c);
        proof {
            assert(out@ =~= seq![digit_char(n as nat)]);
        }
        out
    } else {
        let mut out = decimal_string(n / 10);
        out.push(c);
        out
    }
}

} // verus!
