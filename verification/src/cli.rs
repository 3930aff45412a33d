//! Command argument types: the values that the options of the command line decode to

#![allow(non_camel_case_types)]

use vstd::prelude::*;

verus! {

/// Whether a string's characters are those of another
pub fn same_text(a: &str, b: &str) -> (r: bool)
    ensures
        r == (a@ == b@),
{
    let n = a.unicode_len();
    if n != b.unicode_len() {
        return false;
    }
    let mut i: usize = 0;
    while i < n
        invariant
            n == a@.len(),
            n == b@.len(),
            i <= n,
            forall|j: int| 0 <= j < i ==> a@[j] == b@[j],
        decreases n - i,
    {
        if a.get_char(i) != b.get_char(i) {
            return false;
        }
        i = i + 1;
    }
    assert(a@ =~= b@);
    true
}

/// Whether the character is a decimal digit
pub open spec fn is_digit(c: char) -> bool {
    '0' <= c <= '9'
}

/// The value of a sequence of decimal digits, the most significant first
pub open spec fn digits_value(s: Seq<char>) -> int
    decreases s.len(),
{
    if s.len() == 0 {
        0
    } else {
        digits_value(s.drop_last()) * 10 + (s.last() as int - '0' as int)
    }
}

/// The characters after an optional leading `+`
pub open spec fn unsigned_digits(s: Seq<char>) -> Seq<char> {
    if s.len() > 0 && s[0] == '+' {
        s.drop_first()
    } else {
        s
    }
}

/// Whether the text is an unsigned decimal number of at most `max`, the way the standard
/// library parses unsigned integers: an optional `+`, then one or more decimal digits
pub open spec fn decimal_fits(s: Seq<char>, max: int) -> bool {
    let d = unsigned_digits(s);
    &&& d.len() > 0
    &&& forall|i: int| 0 <= i < d.len() ==> is_digit(#[trigger] d[i])
    &&& digits_value(d) <= max
}

/// The value of an unsigned decimal number
pub open spec fn decimal_value(s: Seq<char>) -> int {
    digits_value(unsigned_digits(s))
}

/// A longer number of digits is at least as great
proof fn lemma_digits_value_grows(s: Seq<char>)
    requires
        forall|i: int| 0 <= i < s.len() ==> is_digit(#[trigger] s[i]),
    ensures
        digits_value(s) >= 0,
        s.len() > 0 ==> digits_value(s) >= digits_value(s.drop_last()),
    decreases s.len(),
{
    if s.len() > 0 {
        lemma_digits_value_grows(s.drop_last());
    }
}

/// A number whose leading digits already exceed `max` exceeds it
proof fn lemma_digits_prefix(s: Seq<char>, k: int)
    requires
        0 <= k <= s.len(),
        forall|i: int| 0 <= i < s.len() ==> is_digit(#[trigger] s[i]),
    ensures
        digits_value(s.take(k)) <= digits_value(s),
    decreases s.len() - k,
{
    if k < s.len() {
        lemma_digits_prefix(s, k + 1);
        assert(s.take(k + 1).drop_last() =~= s.take(k));
        lemma_digits_value_grows(s.take(k + 1));
    } else {
        assert(s.take(k) =~= s);
    }
}

/// The number that the characters of `text` from `from` to `to` (excluded) spell, when it is
/// an unsigned decimal number of at most `max`
pub fn parse_decimal(text: &str, from: usize, to: usize, max: u32) -> (r: Option<u32>)
    requires
        from <= to <= text@.len(),
    ensures
        r is Some <==> decimal_fits(text@.subrange(from as int, to as int), max as int),
        r matches Some(v) ==> v == decimal_value(text@.subrange(from as int, to as int)),
{
    let ghost s = text@.subrange(from as int, to as int);
    let mut off = from;
    if off < to && text.get_char(off) == '+' {
        off = off + 1;
    }
    let ghost d = text@.subrange(off as int, to as int);
    proof {
        assert(d =~= unsigned_digits(s));
    }
    if off == to {
        return None;
    }
    let mut value: u32 = 0;
    let mut i = off;
    proof {
        assert(d.take(0) =~= Seq::<char>::empty());
    }
    while i < to
        invariant
            from <= off <= i <= to <= text@.len(),
            d == text@.subrange(off as int, to as int),
            d == unsigned_digits(s),
            s == text@.subrange(from as int, to as int),
            forall|j: int| 0 <= j < i - off ==> is_digit(#[trigger] d[j]),
            value == digits_value(d.take(i - off)),
            value <= max,
        decreases to - i,
    {
        let ghost k = i - off;
        let c = text.get_char(i);
        assert(c == d[k]);
        if !('0' <= c && c <= '9') {
            proof {
                assert(!is_digit(d[k]));
                assert(!decimal_fits(s, max as int));
            }
            return None;
        }
        let digit = (c as u32) - ('0' as u32);
        let next: u64 = (value as u64) * 10 + (digit as u64);
        proof {
            assert(d.take(k + 1).drop_last() =~= d.take(k));
            assert(d.take(k + 1).last() == c);
            assert(next == digits_value(d.take(k + 1)));
        }
        if next > max as u64 {
            proof {
                if forall|j: int| 0 <= j < d.len() ==> is_digit(#[trigger] d[j]) {
                    lemma_digits_prefix(d, k + 1);
                    assert(digits_value(d) > max);
                }
                assert(!decimal_fits(s, max as int));
            }
            return None;
        }
        value = next as u32;
        i = i + 1;
    }
    proof {
        assert(d.take(d.len() as int) =~= d);
    }
    Some(value)
}

/// Which part of an online game this program plays
#[derive(Copy, Clone, Debug, PartialEq, Eq, Structural)]
pub enum OnlineConnection {
    none,
    server,
    client,
}

/// Whether the game fills a window or the screen
#[derive(Copy, Clone, Debug, PartialEq, Eq, Structural)]
pub enum WindowMode {
    window,
    fullscreen,
}

/// The library that opens the window
#[derive(Copy, Clone, Debug, PartialEq, Eq, Structural)]
pub enum GlBackend {
    sdl2,
    glfw,
    glutin,
}

/// The size of the window: width and height
#[derive(Copy, Clone, Debug, PartialEq, Eq, Structural)]
pub struct WindowSize(pub u32, pub u32);

/// Why a window size could not be decoded
#[derive(Copy, Clone, Debug, PartialEq, Eq, Structural)]
pub enum WindowSizeError {
    /// There is no `x` between the width and the height
    MissingX,
    /// The width is not a number that fits in 32 bits
    InvalidWidth,
    /// The height is not a number that fits in 32 bits
    InvalidHeight,
}

impl WindowSizeError {
    /// What the error says to the user
    pub open spec fn message_spec(self) -> Seq<char> {
        match self {
            WindowSizeError::MissingX => "Invalid format: Missing 'x' in \"<WIDTH>x<HEIGHT>\""@,
            WindowSizeError::InvalidWidth => "Invalid format: <WIDTH> in (<SIZE> = <WIDTH>x<HEIGHT>) is not a valid positive integer"@,
            WindowSizeError::InvalidHeight => "Invalid format: <HEIGHT> in (<SIZE> = <WIDTH>x<HEIGHT>) is not a valid positive integer"@,
        }
    }

    /// What the error says to the user
    pub fn message(self) -> (r: &'static str)
        ensures
            r@ == self.message_spec(),
    {
        match self {
            WindowSizeError::MissingX => "Invalid format: Missing 'x' in \"<WIDTH>x<HEIGHT>\"",
            WindowSizeError::InvalidWidth => "Invalid format: <WIDTH> in (<SIZE> = <WIDTH>x<HEIGHT>) is not a valid positive integer",
            WindowSizeError::InvalidHeight => "Invalid format: <HEIGHT> in (<SIZE> = <WIDTH>x<HEIGHT>) is not a valid positive integer",
        }
    }
}

/// The first index from `i` on of the character `c` (the length when there is none)
pub open spec fn index_of_from(s: Seq<char>, c: char, i: int) -> int
    decreases s.len() - i,
{
    if i >= s.len() {
        s.len() as int
    } else if s[i] == c {
        i
    } else {
        index_of_from(s, c, i + 1)
    }
}

/// The first index of the character `c` (the length when there is none)
pub open spec fn index_of(s: Seq<char>, c: char) -> int {
    index_of_from(s, c, 0)
}

/// A first index lies between `i` and the length
proof fn lemma_index_of_bounds(s: Seq<char>, c: char, i: int)
    requires
        0 <= i <= s.len(),
    ensures
        i <= index_of_from(s, c, i) <= s.len(),
    decreases s.len() - i,
{
    if i < s.len() {
        lemma_index_of_bounds(s, c, i + 1);
    }
}

/// The first index of the character `c`
fn find_char(text: &str, c: char) -> (r: usize)
    ensures
        r == index_of(text@, c),
{
    let n = text.unicode_len();
    let mut i: usize = 0;
    while i < n && text.get_char(i) != c
        invariant
            n == text@.len(),
            i <= n,
            index_of_from(text@, c, i as int) == index_of(text@, c),
        decreases n - i,
    {
        i = i + 1;
    }
    i
}

/// What decoding the text `<WIDTH>x<HEIGHT>` gives: the text before the first `x` is the width
/// and the text after it the height, each an unsigned decimal number that fits in 32 bits
pub open spec fn window_size_of(s: Seq<char>) -> Result<WindowSize, WindowSizeError> {
    let i = index_of(s, 'x');
    let w = s.subrange(0, i);
    let h = s.subrange(i + 1, s.len() as int);
    if i >= s.len() {
        Err(WindowSizeError::MissingX)
    } else if !decimal_fits(w, u32::MAX as int) {
        Err(WindowSizeError::InvalidWidth)
    } else if !decimal_fits(h, u32::MAX as int) {
        Err(WindowSizeError::InvalidHeight)
    } else {
        Ok(WindowSize(decimal_value(w) as u32, decimal_value(h) as u32))
    }
}

impl WindowSize {
    /// Decodes a window size written `<WIDTH>x<HEIGHT>`
    pub fn decode(text: &str) -> (r: Result<WindowSize, WindowSizeError>)
        ensures
            r == window_size_of(text@),
    {
        let n = text.unicode_len();
        let i = find_char(text, 'x');
        proof {
            lemma_index_of_bounds(text@, 'x', 0);
        }
        if i >= n {
            return Err(WindowSizeError::MissingX);
        }
        let w = match parse_decimal(text, 0, i, u32::MAX) {
            Some(w) => w,
            None => {
                return Err(WindowSizeError::InvalidWidth);
            },
        };
        let h = match parse_decimal(text, i + 1, n, u32::MAX) {
            Some(h) => h,
            None => {
                return Err(WindowSizeError::InvalidHeight);
            },
        };
        Ok(WindowSize(w, h))
    }
}

/// The versions of OpenGL that the game can ask for
#[derive(Copy, Clone, Debug, PartialEq, Eq, Structural)]
pub enum GlVersion {
    V2_0,
    V2_1,
    V3_0,
    V3_1,
    V3_2,
    V3_3,
    V4_0,
    V4_1,
    V4_2,
    V4_3,
    V4_4,
    V4_5,
}

/// Why an OpenGL version could not be decoded
#[derive(Copy, Clone, Debug, PartialEq, Eq, Structural)]
pub enum GlVersionError {
    /// The text is not a number that fits in 8 bits
    InvalidNumber,
    /// The number is not one of a known version
    UnknownVersion,
}

impl GlVersionError {
    /// What the error says to the user
    pub open spec fn message_spec(self) -> Seq<char> {
        match self {
            GlVersionError::InvalidNumber => "Invalid format: <NN> in (--gl-version=NN) is not a valid positive integer"@,
            GlVersionError::UnknownVersion => "Invalid version number was given"@,
        }
    }

    /// What the error says to the user
    pub fn message(self) -> (r: &'static str)
        ensures
            r@ == self.message_spec(),
    {
        match self {
            GlVersionError::InvalidNumber => "Invalid format: <NN> in (--gl-version=NN) is not a valid positive integer",
            GlVersionError::UnknownVersion => "Invalid version number was given",
        }
    }
}

/// The version that the number `NN` (major and minor digit) names
pub open spec fn gl_version_numbered(n: int) -> Option<GlVersion> {
    if n == 20 {
        Some(GlVersion::V2_0)
    } else if n == 21 {
        Some(GlVersion::V2_1)
    } else if n == 30 {
        Some(GlVersion::V3_0)
    } else if n == 31 {
        Some(GlVersion::V3_1)
    } else if n == 32 {
        Some(GlVersion::V3_2)
    } else if n == 33 {
        Some(GlVersion::V3_3)
    } else if n == 40 {
        Some(GlVersion::V4_0)
    } else if n == 41 {
        Some(GlVersion::V4_1)
    } else if n == 42 {
        Some(GlVersion::V4_2)
    } else if n == 43 {
        Some(GlVersion::V4_3)
    } else if n == 44 {
        Some(GlVersion::V4_4)
    } else if n == 45 {
        Some(GlVersion::V4_5)
    } else {
        None
    }
}

/// What decoding the text of a version number gives
pub open spec fn gl_version_of(s: Seq<char>) -> Result<GlVersion, GlVersionError> {
    if !decimal_fits(s, u8::MAX as int) {
        Err(GlVersionError::InvalidNumber)
    } else {
        match gl_version_numbered(decimal_value(s)) {
            Some(v) => Ok(v),
            None => Err(GlVersionError::UnknownVersion),
        }
    }
}

impl GlVersion {
    /// Decodes a version number `NN`: an unsigned decimal number that fits in 8 bits whose
    /// digits are the version's major and minor numbers
    pub fn decode(text: &str) -> (r: Result<GlVersion, GlVersionError>)
        ensures
            r == gl_version_of(text@),
    {
        let n = text.unicode_len();
        let number = match parse_decimal(text, 0, n, 255) {
            Some(number) => number,
            None => {
                proof {
                    assert(text@.subrange(0, n as int) =~= text@);
                }
                return Err(GlVersionError::InvalidNumber);
            },
        };
        proof {
            assert(text@.subrange(0, n as int) =~= text@);
        }
        match number {
            20 => Ok(GlVersion::V2_0),
            21 => Ok(GlVersion::V2_1),
            30 => Ok(GlVersion::V3_0),
            31 => Ok(GlVersion::V3_1),
            32 => Ok(GlVersion::V3_2),
            33 => Ok(GlVersion::V3_3),
            40 => Ok(GlVersion::V4_0),
            41 => Ok(GlVersion::V4_1),
            42 => Ok(GlVersion::V4_2),
            43 => Ok(GlVersion::V4_3),
            44 => Ok(GlVersion::V4_4),
            45 => Ok(GlVersion::V4_5),
            _ => Err(GlVersionError::UnknownVersion),
        }
    }

    /// The version's name, `v` then the major and the minor number with a dot between
    pub open spec fn name_spec(self) -> Seq<char> {
        match self {
            GlVersion::V2_0 => "v2.0"@,
            GlVersion::V2_1 => "v2.1"@,
            GlVersion::V3_0 => "v3.0"@,
            GlVersion::V3_1 => "v3.1"@,
            GlVersion::V3_2 => "v3.2"@,
            GlVersion::V3_3 => "v3.3"@,
            GlVersion::V4_0 => "v4.0"@,
            GlVersion::V4_1 => "v4.1"@,
            GlVersion::V4_2 => "v4.2"@,
            GlVersion::V4_3 => "v4.3"@,
            GlVersion::V4_4 => "v4.4"@,
            GlVersion::V4_5 => "v4.5"@,
        }
    }

    /// The version's name, `v` then the major and the minor number with a dot between
    pub fn name(self) -> (r: &'static str)
        ensures
            r@ == self.name_spec(),
    {
        match self {
            GlVersion::V2_0 => "v2.0",
            GlVersion::V2_1 => "v2.1",
            GlVersion::V3_0 => "v3.0",
            GlVersion::V3_1 => "v3.1",
            GlVersion::V3_2 => "v3.2",
            GlVersion::V3_3 => "v3.3",
            GlVersion::V4_0 => "v4.0",
            GlVersion::V4_1 => "v4.1",
            GlVersion::V4_2 => "v4.2",
            GlVersion::V4_3 => "v4.3",
            GlVersion::V4_4 => "v4.4",
            GlVersion::V4_5 => "v4.5",
        }
    }
}

/// The character of the decimal digit `d`
pub open spec fn digit_char(d: int) -> char {
    (d + '0' as int) as char
}

/// Decoding names the version by the number's digits: when the text decodes to a version,
/// that version's name is `v`, the number's tens digit, `.` and its units digit
pub proof fn law_gl_version_name_spells_number(s: Seq<char>, v: GlVersion)
    requires
        gl_version_of(s) == Ok::<GlVersion, GlVersionError>(v),
    ensures
        v.name_spec() == seq!['v', digit_char(decimal_value(s) / 10), '.', digit_char(
            decimal_value(s) % 10,
        )],
{
    reveal_strlit("v2.0");
    reveal_strlit("v2.1");
    reveal_strlit("v3.0");
    reveal_strlit("v3.1");
    reveal_strlit("v3.2");
    reveal_strlit("v3.3");
    reveal_strlit("v4.0");
    reveal_strlit("v4.1");
    reveal_strlit("v4.2");
    reveal_strlit("v4.3");
    reveal_strlit("v4.4");
    reveal_strlit("v4.5");
    assert(v.name_spec() =~= seq!['v', digit_char(decimal_value(s) / 10), '.', digit_char(
        decimal_value(s) % 10,
    )]);
}

/// Two texts that decode to the same version name the same number: distinct known numbers
/// decode to distinct versions
pub proof fn law_gl_version_decode_injective(s1: Seq<char>, s2: Seq<char>, v: GlVersion)
    requires
        gl_version_of(s1) == Ok::<GlVersion, GlVersionError>(v),
        gl_version_of(s2) == Ok::<GlVersion, GlVersionError>(v),
    ensures
        decimal_value(s1) == decimal_value(s2),
{
    law_gl_version_name_spells_number(s1, v);
    law_gl_version_name_spells_number(s2, v);
    let n1 = decimal_value(s1);
    let n2 = decimal_value(s2);
    assert(v.name_spec()[1] == digit_char(n1 / 10) && v.name_spec()[1] == digit_char(n2 / 10));
    assert(v.name_spec()[3] == digit_char(n1 % 10) && v.name_spec()[3] == digit_char(n2 % 10));
}

} // verus!
