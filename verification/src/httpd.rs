//! The embedded range-serving HTTP responder: a hand-rolled parser for
//! the one request shape the updating device sends, and the partial- or
//! full-content responses it is owed. Everything here is computation from
//! request text to response bytes; the listener, the socket reads and the
//! writes live with the caller.

use vstd::prelude::*;
use vstd::hash_map::StringHashMap;
use crate::binary::Binary;
use crate::error::Error;
use crate::netutils::IpAddress;

verus! {

// --- scanning primitives over sequences of characters ---

/// The index of the first occurrence of `c` in `s`, or `s.len()` if
/// there is none.
pub open spec fn first_char(s: Seq<char>, c: char) -> int
    decreases s.len(),
{
    if s.len() == 0 {
        0
    } else if s.first() == c {
        0
    } else {
        1 + first_char(s.drop_first(), c)
    }
}

/// `first_char` points at the first occurrence: nothing before it is `c`,
/// and the character there (if within the string) is `c`.
pub proof fn lemma_first_char(s: Seq<char>, c: char)
    ensures
        0 <= first_char(s, c) <= s.len(),
        forall|j: int| 0 <= j < first_char(s, c) ==> s[j] != c,
        first_char(s, c) < s.len() ==> s[first_char(s, c)] == c,
    decreases s.len(),
{
    if s.len() == 0 {
    } else if s.first() == c {
    } else {
        lemma_first_char(s.drop_first(), c);
        assert forall|j: int| 0 <= j < first_char(s, c) implies s[j] != c by {
            if j > 0 {
                assert(s.drop_first()[j - 1] == s[j]);
            }
        }
        if first_char(s, c) < s.len() {
            assert(s.drop_first()[first_char(s.drop_first(), c)] == s[first_char(s, c)]);
        }
    }
}

/// Finds the first occurrence of `c` in `s` at or after `start`.
fn scan_char(s: &str, start: usize, c: char) -> (j: usize)
    requires
        start <= s@.len(),
    ensures
        start <= j <= s@.len(),
        j - start == first_char(s@.skip(start as int), c),
        forall|k: int| start <= k < j ==> s@[k] != c,
        j < s@.len() ==> s@[j as int] == c,
{
    let ghost tail = s@.skip(start as int);
    let len = s.unicode_len();
    let mut i: usize = start;
    while i < len && s.get_char(i) != c
        invariant
            start <= i <= len == s@.len(),
            forall|k: int| start <= k < i ==> s@[k] != c,
        decreases len - i,
    {
        i = i + 1;
    }
    proof {
        lemma_first_char(tail, c);
        let fd = first_char(tail, c);
        assert forall|k: int| 0 <= k < fd implies tail[k] == s@[start + k] by {}
        if i - start < fd {
            assert(tail[i - start] != c);
            assert(false);
        }
        if fd < i - start {
            assert(s@[start + fd] != c);
            assert(tail[fd] == s@[start + fd]);
            assert(false);
        }
    }
    i
}

/// A whitespace character, as Unicode defines the class: the ASCII
/// controls tab through carriage return, space, next line, no-break
/// space, ogham space mark, the en-quad through hair-space run, the two
/// line separators, narrow no-break space, medium mathematical space and
/// ideographic space.
pub open spec fn is_ws(c: char) -> bool {
    let u = c as u32;
    ||| 9 <= u <= 13
    ||| u == 32
    ||| u == 0x85
    ||| u == 0xA0
    ||| u == 0x1680
    ||| 0x2000 <= u <= 0x200A
    ||| u == 0x2028
    ||| u == 0x2029
    ||| u == 0x202F
    ||| u == 0x205F
    ||| u == 0x3000
}

/// The index of the first separator character in `s`, or `s.len()`.
pub open spec fn first_ws(s: Seq<char>) -> int
    decreases s.len(),
{
    if s.len() == 0 {
        0
    } else if is_ws(s.first()) {
        0
    } else {
        1 + first_ws(s.drop_first())
    }
}

/// `first_ws` points at the first separator.
pub proof fn lemma_first_ws(s: Seq<char>)
    ensures
        0 <= first_ws(s) <= s.len(),
        forall|j: int| 0 <= j < first_ws(s) ==> !is_ws(s[j]),
        first_ws(s) < s.len() ==> is_ws(s[first_ws(s)]),
    decreases s.len(),
{
    if s.len() == 0 {
    } else if is_ws(s.first()) {
    } else {
        lemma_first_ws(s.drop_first());
        assert forall|j: int| 0 <= j < first_ws(s) implies !is_ws(s[j]) by {
            if j > 0 {
                assert(s.drop_first()[j - 1] == s[j]);
            }
        }
        if first_ws(s) < s.len() {
            assert(s.drop_first()[first_ws(s.drop_first())] == s[first_ws(s)]);
        }
    }
}

/// Whether the character is whitespace.
fn ws_char(c: char) -> (r: bool)
    ensures
        r == is_ws(c),
{
    let u = c as u32;
    (9 <= u && u <= 13) || u == 32 || u == 0x85 || u == 0xA0 || u == 0x1680 || (0x2000 <= u && u
        <= 0x200A) || u == 0x2028 || u == 0x2029 || u == 0x202F || u == 0x205F || u == 0x3000
}

/// Finds the first whitespace character within `[start, end)` of `s`;
/// `end` if there is none there.
fn scan_ws_within(s: &str, start: usize, end: usize) -> (j: usize)
    requires
        start <= end <= s@.len(),
    ensures
        start <= j <= end,
        j - start == first_ws(s@.subrange(start as int, end as int)),
{
    let ghost line = s@.subrange(start as int, end as int);
    let mut i: usize = start;
    while i < end
        invariant
            start <= i <= end <= s@.len(),
            line == s@.subrange(start as int, end as int),
            forall|k: int| 0 <= k < i - start ==> !is_ws(line[k]),
        decreases end - i,
    {
        if ws_char(s.get_char(i)) {
            proof {
                lemma_first_ws(line);
                assert(line[i - start] == s@[i as int]);
                let fd = first_ws(line);
                if fd < i - start {
                    assert(is_ws(line[fd]));
                    assert(false);
                }
                if i - start < fd {
                    assert(!is_ws(line[i - start]));
                    assert(false);
                }
            }
            return i;
        }
        proof {
            assert(line[i - start] == s@[i as int]);
        }
        i = i + 1;
    }
    proof {
        lemma_first_ws(line);
        let fd = first_ws(line);
        if fd < line.len() {
            assert(is_ws(line[fd]));
            assert(!is_ws(line[fd]));
            assert(false);
        }
    }
    end
}

// --- decimal numbers as text ---

/// The character is a decimal digit.
pub open spec fn is_digit(c: char) -> bool {
    48 <= c as u32 <= 57
}

/// The numeric value of a digit character.
pub open spec fn digit_val(c: char) -> int {
    c as u32 - 48
}

/// Every character of `s` is a decimal digit.
pub open spec fn all_digits(s: Seq<char>) -> bool {
    forall|i: int| 0 <= i < s.len() ==> is_digit(#[trigger] s[i])
}

/// The value of a digit string read as a base-ten numeral.
pub open spec fn dec_value(s: Seq<char>) -> int
    decreases s.len(),
{
    if s.len() == 0 {
        0
    } else {
        dec_value(s.drop_last()) * 10 + digit_val(s.last())
    }
}

/// What a numeral string denotes: its base-ten value if, after an
/// optional leading `+`, it is one or more digits; nothing otherwise.
pub open spec fn spec_parse_dec(s: Seq<char>) -> Option<int> {
    let digits = if s.len() > 0 && s[0] == '+' {
        s.skip(1)
    } else {
        s
    };
    if digits.len() > 0 && all_digits(digits) {
        Some(dec_value(digits))
    } else {
        None
    }
}

/// A digit string's value is non-negative and grows with its length.
proof fn lemma_dec_value_monotone(s: Seq<char>, i: int, j: int)
    requires
        all_digits(s),
        0 <= i <= j <= s.len(),
    ensures
        0 <= dec_value(s.take(i)) <= dec_value(s.take(j)),
    decreases j - i,
{
    lemma_dec_value_nonneg(s.take(i));
    if i < j {
        lemma_dec_value_monotone(s, i, j - 1);
        assert(s.take(j).drop_last() =~= s.take(j - 1));
        assert(is_digit(s[j - 1]));
        assert(dec_value(s.take(j)) == dec_value(s.take(j - 1)) * 10 + digit_val(s[j - 1]));
    }
}

proof fn lemma_dec_value_nonneg(s: Seq<char>)
    requires
        forall|i: int| 0 <= i < s.len() ==> is_digit(#[trigger] s[i]),
    ensures
        dec_value(s) >= 0,
    decreases s.len(),
{
    if s.len() > 0 {
        assert(s.drop_last() =~= s.take(s.len() - 1));
        lemma_dec_value_nonneg(s.drop_last());
    }
}

/// Reads a base-ten numeral. `Ok` exactly when the string is one or more
/// digits after an optional leading `+` and its value fits a `usize`;
/// too large a value or any other character is a parse error.
pub fn parse_dec(s: &str) -> (r: Result<usize, Error>)
    ensures
        match r {
            Ok(v) => spec_parse_dec(s@) == Some(v as int),
            Err(e) => (match spec_parse_dec(s@) {
                Some(v) => v > usize::MAX,
                None => true,
            }) && e is ParserError,
        },
{
    let len = s.unicode_len();
    let start: usize = if len > 0 && s.get_char(0) == '+' {
        1
    } else {
        0
    };
    let ghost digits = if s@.len() > 0 && s@[0] == '+' {
        s@.skip(1)
    } else {
        s@
    };
    proof {
        if start == 0 {
            assert(digits =~= s@.skip(0));
        }
        assert(digits == s@.skip(start as int));
    }
    if start == len {
        return Err(Error::ParserError { msg: String::from_str("empty number") });
    }
    let mut acc: usize = 0;
    let mut i: usize = start;
    proof {
        assert(digits.take(0) =~= Seq::<char>::empty());
    }
    while i < len
        invariant
            start <= i <= len == s@.len(),
            digits == s@.skip(start as int),
            digits == (if s@.len() > 0 && s@[0] == '+' {
                s@.skip(1)
            } else {
                s@
            }),
            forall|k: int| 0 <= k < i - start ==> is_digit(#[trigger] digits[k]),
            acc as int == dec_value(digits.take(i - start)),
        decreases len - i,
    {
        let c = s.get_char(i);
        proof {
            assert(digits[i - start] == s@[i as int]);
        }
        let cu = c as u32;
        if cu < 48 || cu > 57 {
            proof {
                assert(!is_digit(digits[i - start]));
            }
            return Err(Error::ParserError { msg: String::from_str("not a digit") });
        }
        let d = (cu - 48) as usize;
        proof {
            assert(digits.take(i - start + 1).drop_last() =~= digits.take(i - start));
        }
        if acc > (usize::MAX - d) / 10 {
            proof {
                if all_digits(digits) {
                    assert(acc * 10 + d > usize::MAX) by (nonlinear_arith)
                        requires
                            acc > (usize::MAX - d) / 10,
                            0 <= d <= 9,
                    ;
                    assert(dec_value(digits.take(i - start + 1)) > usize::MAX);
                    lemma_dec_value_monotone(digits, i - start + 1, digits.len() as int);
                    assert(digits.take(digits.len() as int) =~= digits);
                }
            }
            return Err(Error::ParserError { msg: String::from_str("number too large") });
        }
        proof {
            assert(acc * 10 + d <= usize::MAX) by (nonlinear_arith)
                requires
                    acc <= (usize::MAX - d) / 10,
                    0 <= d <= 9,
            ;
        }
        acc = acc * 10 + d;
        i = i + 1;
    }
    proof {
        assert(digits.take(len - start) =~= digits);
    }
    Ok(acc)
}

/// The base-ten numeral of `n`, most significant digit first, without
/// leading zeros.
pub open spec fn dec_chars(n: nat) -> Seq<char>
    decreases n,
{
    if n < 10 {
        seq![digit_char(n)]
    } else {
        dec_chars(n / 10) + seq![digit_char(n % 10)]
    }
}

/// The digit character for a value below ten.
pub open spec fn digit_char(n: nat) -> char {
    (48 + n) as char
}

/// Writes `n` as a base-ten numeral.
pub fn dec_string(n: usize) -> (r: String)
    ensures
        r@ == dec_chars(n as nat),
    decreases n,
{
    if n < 10 {
        digit_string(n)
    } else {
        let mut s = dec_string(n / 10);
        let d = digit_string(n % 10);
        s.append(d.as_str());
        s
    }
}

/// The single-digit numeral for a value below ten.
fn digit_string(n: usize) -> (r: String)
    requires
        n < 10,
    ensures
        r@ == seq![digit_char(n as nat)],
{
    let s: &str = match n {
        0 => "0",
        1 => "1",
        2 => "2",
        3 => "3",
        4 => "4",
        5 => "5",
        6 => "6",
        7 => "7",
        8 => "8",
        _ => "9",
    };
    proof {
        reveal_strlit("0");
        reveal_strlit("1");
        reveal_strlit("2");
        reveal_strlit("3");
        reveal_strlit("4");
        reveal_strlit("5");
        reveal_strlit("6");
        reveal_strlit("7");
        reveal_strlit("8");
        reveal_strlit("9");
        assert(s@ =~= seq![digit_char(n as nat)]);
    }
    s.to_owned()
}

// --- the header map ---

/// The headers of one request: names lower-cased, last occurrence wins.
pub struct Headers {
    m: StringHashMap<String>,
}

impl View for Headers {
    type V = Map<Seq<char>, Seq<char>>;

    closed spec fn view(&self) -> Map<Seq<char>, Seq<char>> {
        Map::new(|k: Seq<char>| self.m@.dom().contains(k), |k: Seq<char>| self.m@[k]@)
    }
}

impl Headers {
    /// An empty header map.
    pub fn new() -> (r: Self)
        ensures
            r@ == Map::<Seq<char>, Seq<char>>::empty(),
    {
        let r = Headers { m: StringHashMap::new() };
        proof {
            assert(r@ =~= Map::<Seq<char>, Seq<char>>::empty());
        }
        r
    }

    /// Stores a header; an earlier value under the same name is replaced.
    pub fn insert(&mut self, name: String, value: String)
        ensures
            final(self)@ == old(self)@.insert(name@, value@),
    {
        let ghost k = name@;
        let ghost v = value@;
        self.m.insert(name, value);
        proof {
            assert(self@ =~= old(self)@.insert(k, v));
        }
    }

    /// Looks a header up by its (lower-cased) name.
    pub fn get(&self, name: &str) -> (r: Option<&String>)
        ensures
            match r {
                Some(v) => self@.dom().contains(name@) && v@ == self@[name@],
                None => !self@.dom().contains(name@),
            },
    {
        self.m.get(name)
    }
}


// --- the blank-line separator between header block and body ---

/// The four-character blank-line sequence stands at `i`.
pub open spec fn sep_at(s: Seq<char>, i: int) -> bool {
    &&& 0 <= i
    &&& i + 4 <= s.len()
    &&& s[i] == '\r'
    &&& s[i + 1] == '\n'
    &&& s[i + 2] == '\r'
    &&& s[i + 3] == '\n'
}

/// The index of the first blank-line sequence, or `s.len()` if none.
pub open spec fn first_sep(s: Seq<char>) -> int
    decreases s.len(),
{
    if s.len() < 4 {
        s.len() as int
    } else if sep_at(s, 0) {
        0
    } else {
        1 + first_sep(s.drop_first())
    }
}

/// `first_sep` points at the first blank-line sequence.
pub proof fn lemma_first_sep(s: Seq<char>)
    ensures
        0 <= first_sep(s) <= s.len(),
        forall|j: int| 0 <= j < first_sep(s) ==> !sep_at(s, j),
        first_sep(s) < s.len() ==> sep_at(s, first_sep(s)),
    decreases s.len(),
{
    if s.len() < 4 {
    } else if sep_at(s, 0) {
    } else {
        lemma_first_sep(s.drop_first());
        assert forall|j: int| 0 <= j < first_sep(s) implies !sep_at(s, j) by {
            if j > 0 && sep_at(s, j) {
                assert(s.drop_first()[j - 1] == s[j]);
                assert(s.drop_first()[j] == s[j + 1]);
                assert(s.drop_first()[j + 1] == s[j + 2]);
                assert(s.drop_first()[j + 2] == s[j + 3]);
                assert(sep_at(s.drop_first(), j - 1));
            }
        }
        if first_sep(s) < s.len() {
            let f = first_sep(s.drop_first());
            assert(sep_at(s.drop_first(), f));
            assert(s.drop_first()[f] == s[f + 1]);
            assert(s.drop_first()[f + 1] == s[f + 2]);
            assert(s.drop_first()[f + 2] == s[f + 3]);
            assert(s.drop_first()[f + 3] == s[f + 4]);
        }
    }
}

/// Finds the first blank-line sequence; `s.len()` if there is none.
fn scan_sep(s: &str) -> (j: usize)
    ensures
        j == first_sep(s@),
        j <= s@.len(),
        j < s@.len() ==> j + 4 <= s@.len() && sep_at(s@, j as int),
{
    let len = s.unicode_len();
    if len < 4 {
        proof {
            lemma_first_sep(s@);
        }
        return len;
    }
    let mut i: usize = 0;
    while i <= len - 4
        invariant
            len == s@.len(),
            4 <= len,
            i <= len,
            forall|k: int| 0 <= k < i ==> !sep_at(s@, k),
        decreases len - i,
    {
        if s.get_char(i) == '\r' && s.get_char(i + 1) == '\n' && s.get_char(i + 2) == '\r'
            && s.get_char(i + 3) == '\n' {
            proof {
                lemma_first_sep(s@);
                assert(sep_at(s@, i as int));
                let fd = first_sep(s@);
                if fd < i {
                    assert(sep_at(s@, fd));
                    assert(false);
                }
                if i < fd {
                    assert(!sep_at(s@, i as int));
                    assert(false);
                }
            }
            return i;
        }
        i = i + 1;
    }
    proof {
        lemma_first_sep(s@);
        let fd = first_sep(s@);
        if fd < len {
            assert(sep_at(s@, fd));
            assert(fd + 4 <= len);
            assert(!sep_at(s@, fd));
            assert(false);
        }
    }
    len
}

// --- header lines ---

/// A `: ` separator stands at `i`.
pub open spec fn colon_sp_at(s: Seq<char>, i: int) -> bool {
    &&& 0 <= i
    &&& i + 2 <= s.len()
    &&& s[i] == ':'
    &&& s[i + 1] == ' '
}

/// The index of the first `: ` separator, or `s.len()` if none.
pub open spec fn first_colon_sp(s: Seq<char>) -> int
    decreases s.len(),
{
    if s.len() < 2 {
        s.len() as int
    } else if colon_sp_at(s, 0) {
        0
    } else {
        1 + first_colon_sp(s.drop_first())
    }
}

/// `first_colon_sp` points at the first `: ` separator.
pub proof fn lemma_first_colon_sp(s: Seq<char>)
    ensures
        0 <= first_colon_sp(s) <= s.len(),
        forall|j: int| 0 <= j < first_colon_sp(s) ==> !colon_sp_at(s, j),
        first_colon_sp(s) < s.len() ==> colon_sp_at(s, first_colon_sp(s)),
    decreases s.len(),
{
    if s.len() < 2 {
    } else if colon_sp_at(s, 0) {
    } else {
        lemma_first_colon_sp(s.drop_first());
        assert forall|j: int| 0 <= j < first_colon_sp(s) implies !colon_sp_at(s, j) by {
            if j > 0 && colon_sp_at(s, j) {
                assert(s.drop_first()[j - 1] == s[j]);
                assert(s.drop_first()[j] == s[j + 1]);
                assert(colon_sp_at(s.drop_first(), j - 1));
            }
        }
        if first_colon_sp(s) < s.len() {
            let f = first_colon_sp(s.drop_first());
            assert(colon_sp_at(s.drop_first(), f));
            assert(s.drop_first()[f] == s[f + 1]);
            assert(s.drop_first()[f + 1] == s[f + 2]);
        }
    }
}

/// Finds the first `: ` separator within `[start, end)` of `s`; `end` if
/// there is none there.
fn scan_colon_sp(s: &str, start: usize, end: usize) -> (j: usize)
    requires
        start <= end <= s@.len(),
    ensures
        start <= j <= end,
        j - start == first_colon_sp(s@.subrange(start as int, end as int)),
{
    let ghost line = s@.subrange(start as int, end as int);
    if end - start < 2 {
        proof {
            lemma_first_colon_sp(line);
        }
        return end;
    }
    let mut i: usize = start;
    while i <= end - 2
        invariant
            start + 2 <= end <= s@.len(),
            start <= i <= end,
            line == s@.subrange(start as int, end as int),
            forall|k: int| 0 <= k < i - start ==> !colon_sp_at(line, k),
        decreases end - i,
    {
        if s.get_char(i) == ':' && s.get_char(i + 1) == ' ' {
            proof {
                lemma_first_colon_sp(line);
                assert(line[i - start] == s@[i as int]);
                assert(line[i - start + 1] == s@[i + 1]);
                assert(colon_sp_at(line, i - start));
                let fd = first_colon_sp(line);
                if fd < i - start {
                    assert(colon_sp_at(line, fd));
                    assert(false);
                }
                if i - start < fd {
                    assert(!colon_sp_at(line, i - start));
                    assert(false);
                }
            }
            return i;
        }
        proof {
            if colon_sp_at(line, i - start) {
                assert(line[i - start] == s@[i as int]);
                assert(line[i - start + 1] == s@[i + 1]);
                assert(false);
            }
        }
        i = i + 1;
    }
    proof {
        lemma_first_colon_sp(line);
        let fd = first_colon_sp(line);
        if fd < line.len() {
            assert(colon_sp_at(line, fd));
            assert(fd + 2 <= line.len());
            assert(!colon_sp_at(line, fd));
            assert(false);
        }
    }
    end
}

/// An ASCII upper-case letter mapped to lower case, anything else kept.
pub open spec fn ascii_lower_char(c: char) -> char {
    if 65 <= c as u32 <= 90 {
        ((c as u32 + 32) as u8) as char
    } else {
        c
    }
}

/// Every character mapped through [`ascii_lower_char`].
pub open spec fn ascii_lower(s: Seq<char>) -> Seq<char> {
    s.map_values(|c: char| ascii_lower_char(c))
}

/// Relies on str::to_ascii_lowercase: each ASCII upper-case letter is
/// mapped to its lower-case equivalent, every other character is kept;
/// a function of the characters alone. ASCII normalization is the
/// deliberate choice here — HTTP header names are ASCII by grammar, and
/// it keeps the header-map specification an exact per-character map.
#[verifier::external_body]
fn ascii_lowercase(s: &str) -> (r: String)
    ensures
        r@ == ascii_lower(s@),
{
    s.to_ascii_lowercase()
}

/// One header line folded into the map: a `name: value` line inserts the
/// lower-cased name (so the last occurrence of a name wins); a line
/// without `: ` is skipped.
pub open spec fn apply_header_line(
    m: Map<Seq<char>, Seq<char>>,
    line: Seq<char>,
) -> Map<Seq<char>, Seq<char>> {
    let c = first_colon_sp(line);
    if c + 2 <= line.len() {
        m.insert(ascii_lower(line.take(c)), line.skip(c + 2))
    } else {
        m
    }
}

/// The header text folded line by line into `m`: lines split at `\n`, a
/// `\r` right before the `\n` stripped, the last line taken as it is.
pub open spec fn spec_headers_from(
    m: Map<Seq<char>, Seq<char>>,
    s: Seq<char>,
) -> Map<Seq<char>, Seq<char>>
    decreases s.len(),
    via spec_headers_from_decreases
{
    if s.len() == 0 {
        m
    } else {
        let k = first_char(s, '\n');
        if k == s.len() {
            apply_header_line(m, s)
        } else {
            let line = if k > 0 && s[k - 1] == '\r' {
                s.take(k - 1)
            } else {
                s.take(k)
            };
            spec_headers_from(apply_header_line(m, line), s.skip(k + 1))
        }
    }
}

#[via_fn]
proof fn spec_headers_from_decreases(m: Map<Seq<char>, Seq<char>>, s: Seq<char>) {
    lemma_first_char(s, '\n');
}

/// What a raw header block denotes as a header map.
pub open spec fn spec_headers(s: Seq<char>) -> Map<Seq<char>, Seq<char>> {
    spec_headers_from(Map::empty(), s)
}

// --- the request ---

/// One parsed request, built fresh per accepted connection read and
/// discarded after the response is written.
pub struct HttpRequest {
    pub method: String,
    pub path: String,
    pub headers: Headers,
    pub body: String,
}

/// The mathematical value of an [`HttpRequest`].
pub struct RequestView {
    pub method: Seq<char>,
    pub path: Seq<char>,
    pub headers: Map<Seq<char>, Seq<char>>,
    pub body: Seq<char>,
}

impl View for HttpRequest {
    type V = RequestView;

    open spec fn view(&self) -> RequestView {
        RequestView {
            method: self.method@,
            path: self.path@,
            headers: self.headers@,
            body: self.body@,
        }
    }
}

/// The header block taken apart: its first line split on whitespace into
/// method, path and version (the rest of the line), and everything after
/// the first line as raw header text. A first line with fewer than three
/// tokens is nothing. A block without a line break is all first line,
/// with no header text.
pub open spec fn spec_request_parts(h: Seq<char>) -> Option<(
    Seq<char>,
    Seq<char>,
    Seq<char>,
    Seq<char>,
)> {
    let nl = first_char(h, '\n');
    let line = if nl == h.len() {
        h
    } else if nl > 0 && h[nl - 1] == '\r' {
        h.take(nl - 1)
    } else {
        h.take(nl)
    };
    let rest = if nl == h.len() {
        Seq::<char>::empty()
    } else {
        h.skip(nl + 1)
    };
    let w1 = first_ws(line);
    if w1 == line.len() {
        None
    } else {
        let r1 = line.skip(w1 + 1);
        let w2 = first_ws(r1);
        if w2 == r1.len() {
            None
        } else {
            Some((line.take(w1), r1.take(w2), r1.skip(w2 + 1), rest))
        }
    }
}

/// What raw request text denotes: split at the first blank line into
/// header block and body, the block's first line split into method, path
/// and version, and the lines after it read as headers; nothing when
/// either split fails.
pub open spec fn spec_parse_request(raw: Seq<char>) -> Option<RequestView> {
    let k = first_sep(raw);
    if k == raw.len() {
        None
    } else {
        let header = raw.take(k);
        let body = raw.skip(k + 4);
        match spec_request_parts(header) {
            Some(t) => Some(
                RequestView { method: t.0, path: t.1, headers: spec_headers(t.3), body: body },
            ),
            None => None,
        }
    }
}


/// Parses a raw header block into the header map, line by line.
pub fn parse_headers(s: &str) -> (h: Headers)
    ensures
        h@ == spec_headers(s@),
{
    let len = s.unicode_len();
    let mut h = Headers::new();
    let mut pos: usize = 0;
    proof {
        assert(s@.skip(0) =~= s@);
    }
    while pos < len
        invariant
            pos <= len == s@.len(),
            spec_headers(s@) == spec_headers_from(h@, s@.skip(pos as int)),
        decreases len - pos,
    {
        let ghost tail = s@.skip(pos as int);
        let nl = scan_char(s, pos, '\n');
        let lend: usize = if nl == len {
            len
        } else if nl > pos && s.get_char(nl - 1) == '\r' {
            nl - 1
        } else {
            nl
        };
        let ghost line = s@.subrange(pos as int, lend as int);
        proof {
            let k = first_char(tail, '\n');
            assert(k == nl - pos);
            if nl == len {
                assert(line =~= tail);
            } else if nl > pos && s@[nl - 1] == '\r' {
                assert(tail[k - 1] == s@[nl - 1]);
                assert(line =~= tail.take(k - 1));
            } else {
                if k > 0 {
                    assert(tail[k - 1] == s@[nl - 1]);
                }
                assert(line =~= tail.take(k));
            }
        }
        let c = scan_colon_sp(s, pos, lend);
        if lend - c >= 2 {
            let name_raw = s.substring_char(pos, c);
            let name = ascii_lowercase(name_raw);
            let value = s.substring_char(c + 2, lend).to_owned();
            proof {
                assert(s@.subrange(pos as int, c as int) =~= line.take(c - pos));
                assert(s@.subrange(c + 2, lend as int) =~= line.skip(c - pos + 2));
            }
            h.insert(name, value);
        }
        if nl == len {
            pos = len;
            proof {
                assert(s@.skip(pos as int) =~= Seq::<char>::empty());
            }
        } else {
            proof {
                assert(tail.skip((nl - pos) + 1) =~= s@.skip(nl + 1));
            }
            pos = nl + 1;
        }
    }
    proof {
        assert(s@.skip(len as int) =~= Seq::<char>::empty());
    }
    h
}


/// Parses one raw HTTP message. `Ok` exactly when the text has a blank
/// line and its first line splits into at least method, path and version;
/// the malformed shapes are invalid-request errors.
#[verifier::rlimit(50)]
pub fn parse_request(raw: &str) -> (r: Result<HttpRequest, Error>)
    ensures
        match r {
            Ok(q) => spec_parse_request(raw@) == Some(q@),
            Err(e) => spec_parse_request(raw@) is None && e is InvalidRequest,
        },
{
    let len = raw.unicode_len();
    let sep = scan_sep(raw);
    if sep == len {
        return Err(
            Error::InvalidRequest {
                msg: String::from_str("header / body separator not found"),
            },
        );
    }
    let header = raw.substring_char(0, sep);
    let body = raw.substring_char(sep + 4, len).to_owned();
    let ghost h = raw@.take(sep as int);
    proof {
        assert(header@ =~= h);
        assert(body@ =~= raw@.skip(sep + 4));
        assert(h.skip(0) =~= h);
    }
    let hlen = header.unicode_len();
    let nl = scan_char(header, 0, '\n');
    let lend: usize = if nl == hlen {
        hlen
    } else if nl > 0 && header.get_char(nl - 1) == '\r' {
        nl - 1
    } else {
        nl
    };
    let ghost line = h.subrange(0, lend as int);
    proof {
        let k = first_char(h, '\n');
        assert(k == nl);
        if nl == hlen {
            assert(line =~= h);
        } else if nl > 0 && h[nl - 1] == '\r' {
            assert(line =~= h.take(nl - 1));
        } else {
            assert(line =~= h.take(nl as int));
        }
    }
    let raw_headers = if nl == hlen {
        header.substring_char(hlen, hlen)
    } else {
        header.substring_char(nl + 1, hlen)
    };
    proof {
        if nl == hlen {
            assert(raw_headers@ =~= Seq::<char>::empty());
        } else {
            assert(raw_headers@ =~= h.skip(nl + 1));
        }
    }
    let a1 = scan_ws_within(header, 0, lend);
    proof {
        assert(line == header@.subrange(0, lend as int));
    }
    if a1 == lend {
        return Err(Error::InvalidRequest { msg: String::from_str("malformed request line") });
    }
    let a2 = scan_ws_within(header, a1 + 1, lend);
    proof {
        assert(line.skip(a1 + 1) =~= header@.subrange(a1 + 1, lend as int));
    }
    if a2 == lend {
        return Err(Error::InvalidRequest { msg: String::from_str("malformed request line") });
    }
    let method = header.substring_char(0, a1).to_owned();
    let path = header.substring_char(a1 + 1, a2).to_owned();
    let headers = parse_headers(raw_headers);
    proof {
        let t = spec_request_parts(h);
        let r1 = line.skip(a1 + 1);
        assert(r1.len() == lend - (a1 + 1));
        assert(a2 - (a1 + 1) == first_ws(r1));
        assert(t is Some);
        assert(method@ =~= line.take(a1 as int));
        assert(path@ =~= r1.take(a2 - (a1 + 1)));
    }
    Ok(HttpRequest { method, path, headers, body })
}

// --- substring search ---

/// `needle` occurs somewhere in `hay`.
pub open spec fn contains_sub(hay: Seq<char>, needle: Seq<char>) -> bool {
    exists|i: int|
        0 <= i <= hay.len() - needle.len() && #[trigger] hay.subrange(i, i + needle.len())
            == needle
}

/// Whether the chunk of `hay` at `i` equals `needle`.
fn matches_at(hay: &str, needle: &str, i: usize) -> (r: bool)
    requires
        i + needle@.len() <= hay@.len(),
    ensures
        r == (hay@.subrange(i as int, i + needle@.len()) == needle@),
{
    let hlen = hay.unicode_len();
    let nlen = needle.unicode_len();
    let mut j: usize = 0;
    while j < nlen
        invariant
            j <= nlen == needle@.len(),
            i + nlen <= hlen == hay@.len(),
            forall|k: int| 0 <= k < j ==> hay@[i + k] == needle@[k],
        decreases nlen - j,
    {
        if hay.get_char(i + j) != needle.get_char(j) {
            proof {
                assert(hay@.subrange(i as int, i + needle@.len())[j as int] != needle@[j as int]);
            }
            return false;
        }
        j = j + 1;
    }
    proof {
        assert(hay@.subrange(i as int, i + needle@.len()) =~= needle@);
    }
    true
}

/// Whether `hay` holds `needle` somewhere.
pub fn contains_str(hay: &str, needle: &str) -> (r: bool)
    ensures
        r == contains_sub(hay@, needle@),
{
    let hlen = hay.unicode_len();
    let nlen = needle.unicode_len();
    if nlen == 0 {
        proof {
            assert(hay@.subrange(0, 0 + needle@.len() as int) =~= needle@);
        }
        return true;
    }
    if nlen > hlen {
        proof {
            assert(!contains_sub(hay@, needle@));
        }
        return false;
    }
    let mut i: usize = 0;
    while i <= hlen - nlen
        invariant
            1 <= nlen <= hlen == hay@.len(),
            nlen == needle@.len(),
            i <= hlen - nlen + 1,
            forall|k: int| 0 <= k < i ==> #[trigger] hay@.subrange(k, k + needle@.len()) != needle@,
        decreases hlen - i,
    {
        if matches_at(hay, needle, i) {
            return true;
        }
        i = i + 1;
    }
    proof {
        assert(!contains_sub(hay@, needle@));
    }
    false
}

// --- the range header ---

/// What a `Range` header value denotes: `bytes=<from>-<to>` with both
/// bounds base-ten numerals; anything else denotes nothing. The split is
/// at the first `=` and, within what follows, the first `-`.
pub open spec fn spec_parse_range(s: Seq<char>) -> Option<(int, int)> {
    let e = first_char(s, '=');
    if e == s.len() {
        None
    } else if s.take(e) != "bytes"@ {
        None
    } else {
        let rest = s.skip(e + 1);
        let d = first_char(rest, '-');
        if d == rest.len() {
            None
        } else {
            match (spec_parse_dec(rest.take(d)), spec_parse_dec(rest.skip(d + 1))) {
                (Some(f), Some(t)) => Some((f, t)),
                _ => None,
            }
        }
    }
}

/// Reads a `Range` header value as an inclusive byte range. `Ok` exactly
/// when the value has the form `bytes=<from>-<to>` with both bounds
/// numerals that fit a `usize`; everything else is a parse error.
pub fn parse_range_header(value: &str) -> (r: Result<(usize, usize), Error>)
    ensures
        match r {
            Ok(p) => spec_parse_range(value@) == Some((p.0 as int, p.1 as int)),
            Err(e) => e is ParserError && (match spec_parse_range(value@) {
                Some(p) => p.0 > usize::MAX || p.1 > usize::MAX,
                None => true,
            }),
        },
{
    let len = value.unicode_len();
    let e = scan_char(value, 0, '=');
    proof {
        assert(value@.skip(0) =~= value@);
    }
    if e == len {
        return Err(Error::ParserError { msg: String::from_str("missing = in range header") });
    }
    proof {
        reveal_strlit("bytes");
    }
    if !(e == 5 && value.get_char(0) == 'b' && value.get_char(1) == 'y' && value.get_char(2)
        == 't' && value.get_char(3) == 'e' && value.get_char(4) == 's') {
        proof {
            if value@.take(e as int) == "bytes"@ {
                assert(value@.take(e as int).len() == 5);
                assert(value@[0] == 'b');
                assert(value@[1] == 'y');
                assert(value@[2] == 't');
                assert(value@[3] == 'e');
                assert(value@[4] == 's');
            }
        }
        return Err(Error::ParserError { msg: String::from_str("unexpected range type") });
    }
    proof {
        assert(value@.take(e as int) =~= "bytes"@);
    }
    let d = scan_char(value, e + 1, '-');
    let ghost rest = value@.skip(e + 1);
    if d == len {
        return Err(Error::ParserError { msg: String::from_str("missing - in range") });
    }
    let from_str = value.substring_char(e + 1, d);
    let to_str = value.substring_char(d + 1, len);
    proof {
        assert(from_str@ =~= rest.take(d - (e + 1)));
        assert(to_str@ =~= rest.skip(d - (e + 1) + 1));
    }
    let from = match parse_dec(from_str) {
        Ok(v) => v,
        Err(err) => {
            return Err(err);
        },
    };
    let to = match parse_dec(to_str) {
        Ok(v) => v,
        Err(err) => {
            return Err(err);
        },
    };
    Ok((from, to))
}

// --- the response ---

/// One response, ready to write: the status line and headers as text,
/// then the raw content bytes.
pub struct HttpResponse {
    /// Status line and headers, blank line included.
    pub head: String,
    /// The content bytes that follow the head.
    pub body: Vec<u8>,
}

/// The inclusive byte slice `[from, to]` of the content.
pub open spec fn spec_chunk(content: Seq<u8>, from: int, to: int) -> Seq<u8> {
    content.subrange(from, to + 1)
}

/// The head of a partial-content response: status 206 and the three
/// headers the device's fetch routine reads.
pub open spec fn spec_range_head(from: int, to: int, total: int) -> Seq<char> {
    "HTTP/1.1 206 Partial Content\r\nContent-Type: application/octet-stream\r\nContent-Length: "@
        + dec_chars((to + 1 - from) as nat) + "\r\nContent-Range: bytes "@ + dec_chars(
        from as nat,
    ) + "-"@ + dec_chars(to as nat) + "/"@ + dec_chars(total as nat) + "\r\n\r\n"@
}

/// The head of a full-content response: status 200.
pub open spec fn spec_full_head(total: int) -> Seq<char> {
    "HTTP/1.1 200 OK\r\nContent-Type: application/octet-stream\r\nContent-Length: "@ + dec_chars(
        total as nat,
    ) + "\r\n\r\n"@
}

/// How a download request is answered, as a value: a full-content
/// response without a `Range` header; with one, the requested slice,
/// its end clamped to the content's last byte. A malformed range is
/// rejected as a parse error, a range starting beyond the end (or any
/// range of empty content) as an invalid request.
pub enum ServeOutcome {
    /// Head text and content bytes to write.
    Resp(Seq<char>, Seq<u8>),
    /// The `Range` header does not parse, or a bound does not fit.
    BadRange,
    /// The range starts beyond the last byte of the content.
    BadBounds,
}

/// The response owed for `content` under the given headers.
pub open spec fn spec_serve(content: Seq<u8>, headers: Map<Seq<char>, Seq<char>>) -> ServeOutcome {
    if !headers.dom().contains("range"@) {
        ServeOutcome::Resp(spec_full_head(content.len() as int), content)
    } else {
        match spec_parse_range(headers["range"@]) {
            Some(p) => {
                if p.0 > usize::MAX || p.1 > usize::MAX {
                    ServeOutcome::BadRange
                } else {
                    let clamped = if p.1 < content.len() - 1 {
                        p.1
                    } else {
                        content.len() - 1
                    };
                    if content.len() == 0 || p.0 > clamped {
                        ServeOutcome::BadBounds
                    } else {
                        ServeOutcome::Resp(
                            spec_range_head(p.0, clamped, content.len() as int),
                            spec_chunk(content, p.0, clamped),
                        )
                    }
                }
            },
            None => ServeOutcome::BadRange,
        }
    }
}

/// Copies the inclusive slice `[from, to]` of the content.
fn copy_chunk(content: &Vec<u8>, from: usize, to: usize) -> (r: Vec<u8>)
    requires
        from <= to < content@.len(),
    ensures
        r@ == spec_chunk(content@, from as int, to as int),
{
    let len = content.len();
    let mut r: Vec<u8> = Vec::new();
    let mut i: usize = from;
    proof {
        assert(r@ =~= content@.subrange(from as int, from as int));
    }
    while i <= to
        invariant
            from <= i <= to + 1,
            to < len == content@.len(),
            r@ == content@.subrange(from as int, i as int),
        decreases to + 1 - i,
    {
        r.push(content[i]);
        proof {
            assert(content@.subrange(from as int, i + 1) =~= content@.subrange(
                from as int,
                i as int,
            ).push(content@[i as int]));
        }
        i = i + 1;
    }
    r
}

/// Builds the head of a partial-content response.
fn range_head(from: usize, to: usize, total: usize) -> (r: String)
    requires
        from <= to,
        to < usize::MAX,
    ensures
        r@ == spec_range_head(from as int, to as int, total as int),
{
    let mut s = String::from_str(
        "HTTP/1.1 206 Partial Content\r\nContent-Type: application/octet-stream\r\nContent-Length: ",
    );
    let n1 = dec_string(to - from + 1);
    s.append(n1.as_str());
    s.append("\r\nContent-Range: bytes ");
    let n2 = dec_string(from);
    s.append(n2.as_str());
    s.append("-");
    let n3 = dec_string(to);
    s.append(n3.as_str());
    s.append("/");
    let n4 = dec_string(total);
    s.append(n4.as_str());
    s.append("\r\n\r\n");
    s
}

/// Builds the head of a full-content response.
fn full_head(total: usize) -> (r: String)
    ensures
        r@ == spec_full_head(total as int),
{
    let mut s = String::from_str(
        "HTTP/1.1 200 OK\r\nContent-Type: application/octet-stream\r\nContent-Length: ",
    );
    let n = dec_string(total);
    s.append(n.as_str());
    s.append("\r\n\r\n");
    s
}

/// A v4 address value written as its dotted quad.
pub open spec fn spec_ipv4_chars(v: u32) -> Seq<char> {
    dec_chars((v / 0x1000000) as nat) + "."@ + dec_chars(((v / 0x10000) % 0x100) as nat) + "."@
        + dec_chars(((v / 0x100) % 0x100) as nat) + "."@ + dec_chars((v % 0x100) as nat)
}

/// Writes a v4 address value as its dotted quad.
pub fn ipv4_string(v: u32) -> (r: String)
    ensures
        r@ == spec_ipv4_chars(v),
{
    let mut s = dec_string((v / 0x1000000) as usize);
    s.append(".");
    let o2 = dec_string(((v / 0x10000) % 0x100) as usize);
    s.append(o2.as_str());
    s.append(".");
    let o3 = dec_string(((v / 0x100) % 0x100) as usize);
    s.append(o3.as_str());
    s.append(".");
    let o4 = dec_string((v % 0x100) as usize);
    s.append(o4.as_str());
    s
}

// --- the server ---

/// What one accepted request asks the caller to do next.
pub enum RequestOutcome {
    /// Write this response, then read the next pipelined request on the
    /// same connection.
    ServeChunk(HttpResponse),
    /// A POST arrived: its body is the upload acknowledgment to report;
    /// connection handling stops.
    UploadDone(String),
    /// Parsed, but neither a matching GET nor a POST: report it and stop.
    Unexpected(HttpRequest),
    /// The request could not be parsed or served: report and stop.
    Failed(Error),
}

/// The embedded server's configuration: where it binds, the binary it
/// serves and that binary's content, loaded once up front. The content is
/// immutable after construction, so connection handlers share it freely.
pub struct Httpd {
    /// The address to bind to.
    pub ip: IpAddress,
    /// The port to bind to.
    pub port: u16,
    /// The binary whose basename requests must name.
    pub bin: Binary,
    /// The binary's full content.
    pub bin_content: Vec<u8>,
}

impl Httpd {
    /// A server for one binary; the caller reads the content and binds
    /// the listener.
    pub fn new(ip: &IpAddress, port: u16, bin: &Binary, bin_content: Vec<u8>) -> (r: Httpd)
        ensures
            r.ip == *ip,
            r.port == port,
            r.bin@ == bin@,
            r.bin_content@ == bin_content@,
    {
        Httpd { ip: *ip, port, bin: bin.duplicate(), bin_content }
    }

    /// The URL the binary is served under, for the given host text:
    /// scheme, host, port and the binary's name as the path.
    pub fn endpoint_url(&self, host: &str) -> (r: String)
        ensures
            r@ == "http://"@ + host@ + ":"@ + dec_chars(self.port as nat) + "/"@ + self.bin@.skip(
                crate::binary::base_start(self.bin@),
            ),
    {
        let mut s = String::from_str("http://");
        s.append(host);
        s.append(":");
        let p = dec_string(self.port as usize);
        s.append(p.as_str());
        s.append("/");
        let name = self.bin.basename();
        s.append(name.as_str());
        s
    }

    /// Answers a download request: a 206 with exactly the requested
    /// slice (end clamped to the content) when a `Range` header is
    /// there, a 200 with the whole content when none is.
    pub fn handle_bin_download(&self, headers: &Headers) -> (r: Result<HttpResponse, Error>)
        ensures
            match spec_serve(self.bin_content@, headers@) {
                ServeOutcome::Resp(head, body) => r matches Ok(resp) && resp.head@ == head
                    && resp.body@ == body,
                ServeOutcome::BadRange => r matches Err(e) && e is ParserError,
                ServeOutcome::BadBounds => r matches Err(e) && e is InvalidRequest,
            },
    {
        let range_value = match headers.get("range") {
            None => {
                let head = full_head(self.bin_content.len());
                let body = copy_all(&self.bin_content);
                return Ok(HttpResponse { head, body });
            },
            Some(v) => v,
        };
        let (from, to) = match parse_range_header(range_value.as_str()) {
            Ok(p) => p,
            Err(e) => {
                return Err(e);
            },
        };
        let len = self.bin_content.len();
        if len == 0 {
            return Err(Error::InvalidRequest { msg: String::from_str("empty content") });
        }
        let clamped = if to < len - 1 {
            to
        } else {
            len - 1
        };
        if from > clamped {
            return Err(
                Error::InvalidRequest { msg: String::from_str("range starts beyond the end") },
            );
        }
        let head = range_head(from, clamped, len);
        let body = copy_chunk(&self.bin_content, from, clamped);
        Ok(HttpResponse { head, body })
    }

    /// Decides what one raw request asks for: a download of the binary
    /// (a GET whose path holds the binary's name), an upload
    /// acknowledgment (any POST), or nothing this server answers.
    pub fn handle_request(&self, raw: &str) -> (r: RequestOutcome)
        ensures
            ({
                let base = self.bin@.skip(crate::binary::base_start(self.bin@));
                match spec_parse_request(raw@) {
                    None => r matches RequestOutcome::Failed(e) && e is InvalidRequest,
                    Some(q) => {
                        if q.method == "GET"@ && contains_sub(q.path, base) {
                            match spec_serve(self.bin_content@, q.headers) {
                                ServeOutcome::Resp(head, body) => r matches
                                    RequestOutcome::ServeChunk(resp) && resp.head@ == head
                                    && resp.body@ == body,
                                ServeOutcome::BadRange => r matches RequestOutcome::Failed(e)
                                    && e is ParserError,
                                ServeOutcome::BadBounds => r matches RequestOutcome::Failed(e)
                                    && e is InvalidRequest,
                            }
                        } else if q.method == "POST"@ {
                            r matches RequestOutcome::UploadDone(b) && b@ == q.body
                        } else {
                            r matches RequestOutcome::Unexpected(u) && u@ == q
                        }
                    },
                }
            }),
    {
        let req = match parse_request(raw) {
            Ok(q) => q,
            Err(e) => {
                return RequestOutcome::Failed(e);
            },
        };
        let base = self.bin.basename();
        let get = String::from_str("GET");
        let post = String::from_str("POST");
        if req.method == get && contains_str(req.path.as_str(), base.as_str()) {
            match self.handle_bin_download(&req.headers) {
                Ok(resp) => RequestOutcome::ServeChunk(resp),
                Err(e) => RequestOutcome::Failed(e),
            }
        } else if req.method == post {
            RequestOutcome::UploadDone(req.body)
        } else {
            RequestOutcome::Unexpected(req)
        }
    }
}

/// Copies the whole content.
fn copy_all(content: &Vec<u8>) -> (r: Vec<u8>)
    ensures
        r@ == content@,
{
    let mut r: Vec<u8> = Vec::new();
    let mut i: usize = 0;
    proof {
        assert(r@ =~= content@.subrange(0, 0));
    }
    while i < content.len()
        invariant
            i <= content@.len(),
            r@ == content@.subrange(0, i as int),
        decreases content@.len() - i,
    {
        r.push(content[i]);
        proof {
            assert(content@.subrange(0, i + 1) =~= content@.subrange(0, i as int).push(
                content@[i as int],
            ));
        }
        i = i + 1;
    }
    proof {
        assert(content@.subrange(0, content@.len() as int) =~= content@);
    }
    r
}


// --- laws of range serving ---

/// Range correctness, the splice half: two adjacent inclusive ranges
/// that together span the whole content yield chunks whose concatenation
/// is the content, byte for byte.
pub proof fn lemma_range_roundtrip(content: Seq<u8>, m: int)
    requires
        0 < m < content.len(),
    ensures
        spec_chunk(content, 0, m - 1) + spec_chunk(content, m, content.len() - 1) == content,
{
    assert(spec_chunk(content, 0, m - 1) + spec_chunk(content, m, content.len() - 1) =~= content);
}

/// Range clamping: a request whose end lies at or beyond the last byte
/// is answered with the content up to its last byte — clamped, not
/// rejected.
pub proof fn lemma_range_clamped(content: Seq<u8>, headers: Map<Seq<char>, Seq<char>>, f: int, t: int)
    requires
        headers.dom().contains("range"@),
        spec_parse_range(headers["range"@]) == Some((f, t)),
        content.len() - 1 <= t <= usize::MAX,
        0 <= f <= content.len() - 1,
    ensures
        spec_serve(content, headers) == ServeOutcome::Resp(
            spec_range_head(f, content.len() - 1, content.len() as int),
            spec_chunk(content, f, content.len() - 1),
        ),
{
}

/// Idempotent re-fetch: the response is a function of the content and
/// the request headers alone, so two fetches of one range on one content
/// are answered byte-identically.
pub proof fn lemma_refetch_identical(
    content: Seq<u8>,
    headers: Map<Seq<char>, Seq<char>>,
    h1: Seq<char>,
    b1: Seq<u8>,
    h2: Seq<char>,
    b2: Seq<u8>,
)
    requires
        spec_serve(content, headers) == ServeOutcome::Resp(h1, b1),
        spec_serve(content, headers) == ServeOutcome::Resp(h2, b2),
    ensures
        h1 == h2,
        b1 == b2,
{
}

} // verus!
