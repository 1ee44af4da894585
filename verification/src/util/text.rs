//! Reading and writing text: splitting, numbers, comparison.

use vstd::prelude::*;
use vstd::string::*;

verus! {

/// The texts of string slices.
pub open spec fn texts(v: Seq<&str>) -> Seq<Seq<char>> {
    Seq::new(v.len(), |i: int| v[i]@)
}

/// Whether every character of the text is an ASCII character.
pub open spec fn is_ascii_text(s: Seq<char>) -> bool {
    forall|i: int| 0 <= i < s.len() ==> ((#[trigger] s[i]) as u32) < 128
}

/// The pieces of `s` from position `start` on, where the first of them is known
/// to reach at least to position `i`.
pub open spec fn split_from(s: Seq<char>, c: char, start: int, i: int) -> Seq<Seq<char>>
    decreases s.len() - i,
{
    if i >= s.len() {
        seq![s.subrange(start, s.len() as int)]
    } else if s[i] == c {
        seq![s.subrange(start, i)] + split_from(s, c, i + 1, i + 1)
    } else {
        split_from(s, c, start, i + 1)
    }
}

/// The pieces of `s` between the characters `c`: one more than there are such
/// characters.
pub open spec fn split_on(s: Seq<char>, c: char) -> Seq<Seq<char>> {
    split_from(s, c, 0, 0)
}

/// The pieces with `c` between them.
pub open spec fn join_with(pieces: Seq<Seq<char>>, c: char) -> Seq<char>
    decreases pieces.len(),
{
    if pieces.len() == 0 {
        Seq::empty()
    } else if pieces.len() == 1 {
        pieces[0]
    } else {
        pieces[0] + seq![c] + join_with(pieces.drop_first(), c)
    }
}

/// The rest of the text is restored from its pieces, and the character to split
/// on is in none of them.
proof fn pieces_from_rejoin(s: Seq<char>, c: char, start: int, i: int)
    requires
        0 <= start <= i <= s.len(),
        forall|k: int| start <= k < i ==> s[k] != c,
    ensures
        split_from(s, c, start, i).len() > 0,
        join_with(split_from(s, c, start, i), c) == s.subrange(start, s.len() as int),
        forall|p: int|
            #![trigger split_from(s, c, start, i)[p]]
            0 <= p < split_from(s, c, start, i).len() ==> !split_from(s, c, start, i)[p].contains(c),
    decreases s.len() - i,
{
    let all = split_from(s, c, start, i);
    if i >= s.len() {
        assert(all[0] == s.subrange(start, s.len() as int));
    } else if s[i] == c {
        let rest = split_from(s, c, i + 1, i + 1);
        pieces_from_rejoin(s, c, i + 1, i + 1);
        assert(all[0] == s.subrange(start, i));
        assert(all.drop_first() =~= rest);
        assert(s.subrange(start, i) + seq![c] + s.subrange(i + 1, s.len() as int) =~= s.subrange(
            start,
            s.len() as int,
        ));
        assert forall|p: int| 0 <= p < all.len() implies !(#[trigger] all[p]).contains(c) by {
            if p > 0 {
                assert(all[p] == rest[p - 1]);
            }
        }
    } else {
        pieces_from_rejoin(s, c, start, i + 1);
    }
}

/// Splitting loses nothing: joining the pieces gives the text back, and no piece
/// can be split further.
pub proof fn pieces_rejoin(s: Seq<char>, c: char)
    ensures
        split_on(s, c).len() > 0,
        join_with(split_on(s, c), c) == s,
        forall|p: int|
            #![trigger split_on(s, c)[p]]
            0 <= p < split_on(s, c).len() ==> !split_on(s, c)[p].contains(c),
{
    pieces_from_rejoin(s, c, 0, 0);
    assert(s.subrange(0, s.len() as int) =~= s);
}

/// Splits the text on `c`.
pub fn split<'a>(s: &'a str, c: char) -> (r: Vec<&'a str>)
    ensures
        texts(r@) == split_on(s@, c),
{
    let n: usize = s.unicode_len();
    let mut pieces: Vec<&'a str> = Vec::new();
    let mut start: usize = 0;
    let mut i: usize = 0;
    while i < n
        invariant
            n == s@.len(),
            start <= i <= n,
            texts(pieces@) + split_from(s@, c, start as int, i as int) == split_on(s@, c),
        decreases n - i,
    {
        if s.get_char(i) == c {
            let ghost before = texts(pieces@);
            let piece = s.substring_char(start, i);
            pieces.push(piece);
            assert(texts(pieces@) =~= before.push(piece@));
            assert(before + (seq![piece@] + split_from(s@, c, i + 1, i + 1)) =~= before.push(
                piece@,
            ) + split_from(s@, c, i + 1, i + 1));
            start = i + 1;
        }
        i = i + 1;
    }
    let ghost before = texts(pieces@);
    let piece = s.substring_char(start, n);
    pieces.push(piece);
    assert(texts(pieces@) =~= before + seq![piece@]);
    pieces
}

/// Whether `c` stands between words: a comma or ASCII white space.
pub open spec fn is_separator(c: char) -> bool {
    c == ',' || c == ' ' || c == '\t' || c == '\n' || c == '\x0c' || c == '\r'
}

/// The text between `start` and `i`, where there is any.
pub open spec fn word_at(s: Seq<char>, start: int, i: int) -> Seq<Seq<char>> {
    if start < i {
        seq![s.subrange(start, i)]
    } else {
        Seq::empty()
    }
}

/// The words of `s` from position `start` on, where the first of them is known
/// to reach at least to position `i`.
pub open spec fn words_from(s: Seq<char>, start: int, i: int) -> Seq<Seq<char>>
    decreases s.len() - i,
{
    if i >= s.len() {
        word_at(s, start, s.len() as int)
    } else if is_separator(s[i]) {
        word_at(s, start, i) + words_from(s, i + 1, i + 1)
    } else {
        words_from(s, start, i + 1)
    }
}

/// The words of the text: the longest stretches without a comma or ASCII white
/// space.
pub open spec fn words_of(s: Seq<char>) -> Seq<Seq<char>> {
    words_from(s, 0, 0)
}

/// The words of the text.
pub fn words<'a>(s: &'a str) -> (r: Vec<&'a str>)
    ensures
        texts(r@) == words_of(s@),
{
    let n: usize = s.unicode_len();
    let mut found: Vec<&'a str> = Vec::new();
    let mut start: usize = 0;
    let mut i: usize = 0;
    assert(texts(found@) =~= Seq::<Seq<char>>::empty());
    while i < n
        invariant
            n == s@.len(),
            start <= i <= n,
            texts(found@) + words_from(s@, start as int, i as int) == words_of(s@),
        decreases n - i,
    {
        let c = s.get_char(i);
        if c == ',' || c == ' ' || c == '\t' || c == '\n' || c == '\x0c' || c == '\r' {
            let ghost before = texts(found@);
            let ghost rest = words_from(s@, i + 1, i + 1);
            assert(before + (word_at(s@, start as int, i as int) + rest) =~= (before + word_at(
                s@,
                start as int,
                i as int,
            )) + rest);
            if start < i {
                found.push(s.substring_char(start, i));
            }
            assert(texts(found@) =~= before + word_at(s@, start as int, i as int));
            start = i + 1;
        }
        i = i + 1;
    }
    let ghost before = texts(found@);
    if start < n {
        found.push(s.substring_char(start, n));
    }
    assert(texts(found@) =~= before + word_at(s@, start as int, n as int));
    found
}

/// Whether the two texts are the same.
pub fn same(a: &str, b: &str) -> (r: bool)
    ensures
        r == (a@ == b@),
{
    let n: usize = a.unicode_len();
    if n != b.unicode_len() {
        return false;
    }
    let mut i: usize = 0;
    while i < n
        invariant
            i <= n,
            n == a@.len(),
            n == b@.len(),
            forall|k: int| 0 <= k < i ==> a@[k] == b@[k],
        decreases n - i,
    {
        if a.get_char(i) != b.get_char(i) {
            assert(a@[i as int] != b@[i as int]);
            return false;
        }
        i = i + 1;
    }
    assert(a@ =~= b@);
    true
}

/// Whether the text begins with `prefix`.
pub open spec fn begins_with(s: Seq<char>, prefix: Seq<char>) -> bool {
    prefix.len() <= s.len() && s.subrange(0, prefix.len() as int) == prefix
}

/// The text after `prefix`, where the text begins with it.
pub fn strip_prefix<'a>(s: &'a str, prefix: &str) -> (r: Option<&'a str>)
    ensures
        match r {
            None => !begins_with(s@, prefix@),
            Some(t) => begins_with(s@, prefix@) && t@ == s@.subrange(
                prefix@.len() as int,
                s@.len() as int,
            ),
        },
{
    let n: usize = prefix.unicode_len();
    let m: usize = s.unicode_len();
    if m < n {
        return None;
    }
    if same(s.substring_char(0, n), prefix) {
        Some(s.substring_char(n, m))
    } else {
        None
    }
}

/// Whether the character occurs in the text.
pub fn has_char(s: &str, c: char) -> (r: bool)
    ensures
        r == s@.contains(c),
{
    let n: usize = s.unicode_len();
    let mut i: usize = 0;
    while i < n
        invariant
            i <= n,
            n == s@.len(),
            forall|k: int| 0 <= k < i ==> s@[k] != c,
        decreases n - i,
    {
        if s.get_char(i) == c {
            assert(s@[i as int] == c);
            return true;
        }
        i = i + 1;
    }
    false
}

/// Whether every character of the text is an ASCII character.
pub fn is_ascii(s: &str) -> (r: bool)
    ensures
        r == is_ascii_text(s@),
{
    let n: usize = s.unicode_len();
    let mut i: usize = 0;
    while i < n
        invariant
            i <= n,
            n == s@.len(),
            forall|k: int| 0 <= k < i ==> ((#[trigger] s@[k]) as u32) < 128,
        decreases n - i,
    {
        if s.get_char(i) as u32 >= 128 {
            assert(s@[i as int] as u32 >= 128);
            return false;
        }
        i = i + 1;
    }
    true
}

/// Why a text is no number.
#[derive(Clone, Copy, Debug, PartialEq, Eq, Structural)]
pub enum IntError {
    /// There is no text.
    Empty,
    /// A character is no digit.
    InvalidDigit,
    /// The number is too large.
    PosOverflow,
    /// The number is too small.
    NegOverflow,
}

impl IntError {
    /// The error in words.
    pub open spec fn text(self) -> Seq<char> {
        match self {
            IntError::Empty => "cannot parse integer from empty string"@,
            IntError::InvalidDigit => "invalid digit found in string"@,
            IntError::PosOverflow => "number too large to fit in target type"@,
            IntError::NegOverflow => "number too small to fit in target type"@,
        }
    }

    /// The error in words.
    pub fn message(self) -> (r: String)
        ensures
            r@ == self.text(),
    {
        match self {
            IntError::Empty => "cannot parse integer from empty string".to_owned(),
            IntError::InvalidDigit => "invalid digit found in string".to_owned(),
            IntError::PosOverflow => "number too large to fit in target type".to_owned(),
            IntError::NegOverflow => "number too small to fit in target type".to_owned(),
        }
    }
}

/// Whether `c` is a decimal digit.
pub open spec fn is_digit(c: char) -> bool {
    '0' <= c && c <= '9'
}

/// The value of a decimal digit.
pub open spec fn digit_of(c: char) -> int {
    c as u32 - '0' as u32
}

/// Reads the digits from position `i` on behind a number `acc`. What comes
/// first, a character that is no digit or a number beyond `max`, is the error.
pub open spec fn digits_from(s: Seq<char>, i: int, acc: int, max: int) -> Result<int, IntError>
    decreases s.len() - i,
{
    if i >= s.len() {
        Ok(acc)
    } else if !is_digit(s[i]) {
        Err(IntError::InvalidDigit)
    } else if acc * 10 + digit_of(s[i]) > max {
        Err(IntError::PosOverflow)
    } else {
        digits_from(s, i + 1, acc * 10 + digit_of(s[i]), max)
    }
}

/// Where the digits of the text start, if it may have the sign `sign`.
pub open spec fn after_sign(s: Seq<char>, sign: char) -> int {
    if s.len() > 0 && s[0] == sign {
        1
    } else {
        0
    }
}

/// The number between 0 and `max` that the text stands for: digits, and a plus
/// sign before them where there is one.
pub open spec fn unsigned_of(s: Seq<char>, max: int) -> Result<int, IntError> {
    if s.len() == 0 {
        Err(IntError::Empty)
    } else if s == seq!['+'] {
        Err(IntError::InvalidDigit)
    } else {
        digits_from(s, after_sign(s, '+'), 0, max)
    }
}

/// The number of 32 bits that the text stands for: digits, and a sign before
/// them where there is one.
pub open spec fn signed_of(s: Seq<char>) -> Result<int, IntError> {
    if s.len() > 1 && s[0] == '-' {
        match digits_from(s, 1, 0, 0x8000_0000) {
            Ok(n) => Ok(-n),
            Err(IntError::PosOverflow) => Err(IntError::NegOverflow),
            Err(e) => Err(e),
        }
    } else {
        unsigned_of(s, 0x7fff_ffff)
    }
}

/// What was read lies between 0 and the largest number.
proof fn digits_stay_below(s: Seq<char>, i: int, acc: int, max: int)
    requires
        0 <= acc <= max,
        0 <= i,
    ensures
        digits_from(s, i, acc, max) matches Ok(n) ==> 0 <= n <= max,
    decreases s.len() - i,
{
    if i < s.len() && is_digit(s[i]) && acc * 10 + digit_of(s[i]) <= max {
        digits_stay_below(s, i + 1, acc * 10 + digit_of(s[i]), max);
    }
}

/// Reads the digits from position `from` on.
fn read_digits(s: &str, from: usize, max: u64) -> (r: Result<u64, IntError>)
    requires
        from <= s@.len(),
    ensures
        match r {
            Ok(n) => digits_from(s@, from as int, 0, max as int) == Ok::<int, IntError>(n as int),
            Err(e) => digits_from(s@, from as int, 0, max as int) == Err::<int, IntError>(e),
        },
{
    let n: usize = s.unicode_len();
    let mut acc: u64 = 0;
    let mut i: usize = from;
    while i < n
        invariant
            from <= i <= n,
            n == s@.len(),
            acc <= max,
            digits_from(s@, from as int, 0, max as int) == digits_from(
                s@,
                i as int,
                acc as int,
                max as int,
            ),
        decreases n - i,
    {
        let c = s.get_char(i);
        if c < '0' || c > '9' {
            return Err(IntError::InvalidDigit);
        }
        let d: u64 = (c as u32 - '0' as u32) as u64;
        if d > max || acc > max / 10 || acc * 10 > max - d {
            return Err(IntError::PosOverflow);
        }
        acc = acc * 10 + d;
        i = i + 1;
    }
    Ok(acc)
}

/// Reads a number between 0 and `max`.
pub fn parse_unsigned(s: &str, max: u64) -> (r: Result<u64, IntError>)
    ensures
        match r {
            Ok(n) => n <= max && unsigned_of(s@, max as int) == Ok::<int, IntError>(n as int),
            Err(e) => unsigned_of(s@, max as int) == Err::<int, IntError>(e),
        },
{
    let n: usize = s.unicode_len();
    if n == 0 {
        return Err(IntError::Empty);
    }
    proof {
        digits_stay_below(s@, after_sign(s@, '+'), 0, max as int);
    }
    if s.get_char(0) == '+' {
        if n == 1 {
            assert(s@ =~= seq!['+']);
            return Err(IntError::InvalidDigit);
        }
        read_digits(s, 1, max)
    } else {
        assert(seq!['+'][0] == '+');
        read_digits(s, 0, max)
    }
}

/// Reads a number of 32 bits.
pub fn parse_signed(s: &str) -> (r: Result<i32, IntError>)
    ensures
        match r {
            Ok(n) => signed_of(s@) == Ok::<int, IntError>(n as int),
            Err(e) => signed_of(s@) == Err::<int, IntError>(e),
        },
{
    let n: usize = s.unicode_len();
    if n > 1 && s.get_char(0) == '-' {
        proof {
            digits_stay_below(s@, 1, 0, 0x8000_0000);
        }
        match read_digits(s, 1, 0x8000_0000) {
            Ok(m) => Ok((0 - m as i64) as i32),
            Err(IntError::PosOverflow) => Err(IntError::NegOverflow),
            Err(e) => Err(e),
        }
    } else {
        match parse_unsigned(s, 0x7fff_ffff) {
            Ok(m) => Ok(m as i32),
            Err(e) => Err(e),
        }
    }
}

/// Reads a number between 0 and the largest `usize`.
pub fn parse_usize(s: &str) -> (r: Result<usize, IntError>)
    ensures
        match r {
            Ok(n) => unsigned_of(s@, usize::MAX as int) == Ok::<int, IntError>(n as int),
            Err(e) => unsigned_of(s@, usize::MAX as int) == Err::<int, IntError>(e),
        },
{
    match parse_unsigned(s, usize::MAX as u64) {
        Ok(n) => Ok(n as usize),
        Err(e) => Err(e),
    }
}

/// Reads a number of 16 bits.
pub fn parse_u16(s: &str) -> (r: Result<u16, IntError>)
    ensures
        match r {
            Ok(n) => unsigned_of(s@, 0xffff) == Ok::<int, IntError>(n as int),
            Err(e) => unsigned_of(s@, 0xffff) == Err::<int, IntError>(e),
        },
{
    match parse_unsigned(s, 0xffff) {
        Ok(n) => Ok(n as u16),
        Err(e) => Err(e),
    }
}

/// The decimal digit of a number below ten.
pub open spec fn digit_text(d: int) -> Seq<char> {
    seq![('0' as u32 + d) as char]
}

/// The number in decimal digits.
pub open spec fn decimal(n: nat) -> Seq<char>
    decreases n,
{
    if n < 10 {
        digit_text(n as int)
    } else {
        decimal(n / 10) + digit_text((n % 10) as int)
    }
}

/// The decimal digit of a number below ten.
fn digit_string(d: u64) -> (r: &'static str)
    requires
        d < 10,
    ensures
        r@ == digit_text(d as int),
{
    proof {
        reveal_strlit("0");
        reveal_strlit("1");
        reveal_strlit("2");
        reveal_strlit("3");
        reveal_strlit("4");
        reveal_strlit("5");
        reveal_strlit("6");
        reveal_strlit("7");
        reveal_strlit("8");
        reveal_strlit("9");
    }
    let r = if d == 0 {
        "0"
    } else if d == 1 {
        "1"
    } else if d == 2 {
        "2"
    } else if d == 3 {
        "3"
    } else if d == 4 {
        "4"
    } else if d == 5 {
        "5"
    } else if d == 6 {
        "6"
    } else if d == 7 {
        "7"
    } else if d == 8 {
        "8"
    } else {
        "9"
    };
    assert(r@ =~= digit_text(d as int));
    r
}

/// The number in decimal digits.
pub fn decimal_string(n: u64) -> (r: String)
    ensures
        r@ == decimal(n as nat),
    decreases n,
{
    if n < 10 {
        digit_string(n).to_owned()
    } else {
        let mut s = decimal_string(n / 10);
        s.append(digit_string(n % 10));
        s
    }
}

/// Writing a number and reading it back gives the number.
pub proof fn decimal_is_read_back(n: nat, max: int)
    requires
        n <= max,
    ensures
        decimal(n).len() > 0,
        unsigned_of(decimal(n), max) == Ok::<int, IntError>(n as int),
{
    decimal_digits(n);
    digits_of_decimal(n, Seq::empty(), max);
    assert(decimal(n) + Seq::<char>::empty() =~= decimal(n));
    assert(is_digit(decimal(n)[0]));
    assert(seq!['+'][0] == '+');
    assert(digits_from(decimal(n), decimal(n).len() as int, n as int, max) == Ok::<int, IntError>(
        n as int,
    ));
}

/// A written number has only digits.
proof fn decimal_digits(n: nat)
    ensures
        decimal(n).len() > 0,
        forall|k: int| 0 <= k < decimal(n).len() ==> is_digit(#[trigger] decimal(n)[k]),
    decreases n,
{
    if n >= 10 {
        decimal_digits(n / 10);
    }
}

/// Reading the digits of a written number gives the number.
proof fn digits_of_decimal(n: nat, rest: Seq<char>, max: int)
    requires
        n <= max,
    ensures
        digits_from(decimal(n) + rest, 0, 0, max) == digits_from(
            decimal(n) + rest,
            decimal(n).len() as int,
            n as int,
            max,
        ),
    decreases n,
{
    let s = decimal(n) + rest;
    decimal_digits(n);
    if n < 10 {
        assert(s[0] == decimal(n)[0]);
        assert(digit_of(s[0]) == n);
    } else {
        let last = digit_text((n % 10) as int);
        decimal_digits(n / 10);
        digits_of_decimal(n / 10, last + rest, max);
        assert(decimal(n / 10) + (last + rest) =~= s);
        let k = decimal(n / 10).len() as int;
        assert(s[k] == last[0]);
        assert(digit_of(s[k]) == n % 10);
    }
}

/// The texts of strings.
pub open spec fn string_texts(v: Seq<String>) -> Seq<Seq<char>> {
    Seq::new(v.len(), |i: int| v[i]@)
}

/// The cells with `end` behind each of them.
pub open spec fn cells_with(cells: Seq<Seq<char>>, end: Seq<char>) -> Seq<char>
    decreases cells.len(),
{
    if cells.len() == 0 {
        Seq::empty()
    } else {
        cells_with(cells.drop_last(), end) + cells.last() + end
    }
}

/// The cells with `end` behind each of them.
pub fn cells_string(cells: &Vec<String>, end: &str) -> (r: String)
    ensures
        r@ == cells_with(string_texts(cells@), end@),
{
    let mut out = String::new();
    let mut i: usize = 0;
    let ghost all = string_texts(cells@);
    assert(all.take(0) =~= Seq::<Seq<char>>::empty());
    assert(out@ =~= Seq::<char>::empty());
    while i < cells.len()
        invariant
            i <= cells@.len(),
            all == string_texts(cells@),
            out@ == cells_with(all.take(i as int), end@),
        decreases cells@.len() - i,
    {
        assert(all.take(i + 1).drop_last() =~= all.take(i as int));
        assert(all.take(i + 1).last() == cells@[i as int]@);
        out.append(cells[i].as_str());
        out.append(end);
        i = i + 1;
    }
    assert(all.take(i as int) =~= all);
    out
}

/// The numbers in decimal digits.
pub open spec fn decimals(v: Seq<u64>) -> Seq<Seq<char>> {
    Seq::new(v.len(), |i: int| decimal(v[i] as nat))
}

/// The numbers in decimal digits.
pub fn decimal_strings(v: &Vec<u64>) -> (r: Vec<String>)
    ensures
        string_texts(r@) == decimals(v@),
{
    let mut out: Vec<String> = Vec::new();
    let mut i: usize = 0;
    while i < v.len()
        invariant
            i <= v@.len(),
            out@.len() == i,
            forall|k: int| 0 <= k < i ==> (#[trigger] out@[k])@ == decimal(v@[k] as nat),
        decreases v@.len() - i,
    {
        out.push(decimal_string(v[i]));
        i = i + 1;
    }
    assert(string_texts(out@) =~= decimals(v@));
    out
}

} // verus!
