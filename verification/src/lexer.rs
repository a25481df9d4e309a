//! The lexer: turns source lines into a flat, ordered sequence of typed
//! tokens, each carrying its originating line number.
//!
//! Per line: content ending in `:` (after stripping indentation) defines a
//! label; an indented line is an instruction, split on whitespace after
//! dropping a `;` comment, its first word the mnemonic and the rest operand
//! tokens; anything else is skipped.  Whitespace here is the ASCII set
//! (space, tab, line feed, carriage return).  Lexing collects all errors in
//! one pass instead of stopping at the first.

use vstd::arithmetic::div_mod::{
    lemma_mod_add_multiples_vanish, lemma_mod_division_less_than_divisor, lemma_small_mod,
};
use vstd::prelude::*;
use vstd::string::{StrSliceExecFns, StringExecFns};

verus! {

// ---------------------------------------------------------------------------
// Character classes
// ---------------------------------------------------------------------------

/// ASCII whitespace: space, tab, line feed, carriage return.
pub open spec fn is_space_char(c: char) -> bool {
    c == ' ' || c == '\t' || c == '\n' || c == '\r'
}

fn char_is_space(c: char) -> (b: bool)
    ensures
        b == is_space_char(c),
{
    c == ' ' || c == '\t' || c == '\n' || c == '\r'
}

/// An ASCII decimal digit.
pub open spec fn is_dec_digit(c: char) -> bool {
    48 <= c as u32 <= 57
}

/// An ASCII letter or digit.
pub open spec fn is_alnum_char(c: char) -> bool {
    is_dec_digit(c) || 97 <= c as u32 <= 122 || 65 <= c as u32 <= 90
}

fn char_is_alnum(c: char) -> (b: bool)
    ensures
        b == is_alnum_char(c),
{
    let u = c as u32;
    (48 <= u && u <= 57) || (97 <= u && u <= 122) || (65 <= u && u <= 90)
}

/// The numeric value of a digit character, in any radix up to 16, or -1.
/// Both letter cases count, as `u16::from_str_radix` accepts them.
pub open spec fn spec_digit_value(c: char) -> int {
    let u = c as u32;
    if 48 <= u <= 57 {
        u - 48
    } else if 97 <= u <= 102 {
        u - 97 + 10
    } else if 65 <= u <= 70 {
        u - 65 + 10
    } else {
        -1
    }
}

/// Whether `c` is a digit of the given radix.
pub open spec fn is_radix_digit(c: char, radix: int) -> bool {
    0 <= spec_digit_value(c) < radix
}

fn digit_value(c: char) -> (v: i8)
    ensures
        v as int == spec_digit_value(c),
{
    let u = c as u32;
    if 48 <= u && u <= 57 {
        (u - 48) as i8
    } else if 97 <= u && u <= 102 {
        (u - 97 + 10) as i8
    } else if 65 <= u && u <= 70 {
        (u - 65 + 10) as i8
    } else {
        -1
    }
}

// ---------------------------------------------------------------------------
// Tokens
// ---------------------------------------------------------------------------

/// The mathematical model of a token.
#[verifier::ext_equal]
pub enum SpecKeyword {
    Mmenonic { name: Seq<char>, line_number: u16 },
    RegisterAddress { name: Seq<char>, line_number: u16 },
    Constant { value: u16, line_number: u16, origin: Seq<char> },
    Boolean { value: bool, line_number: u16, origin: Seq<char> },
    Label { name: Seq<char>, line_number: u16 },
}

/// A token produced by the lexer, carrying its source line number.
#[derive(Debug)]
pub enum Keyword {
    Mmenonic { name: String, line_number: u16 },
    RegisterAddress { name: String, line_number: u16 },
    Constant { value: u16, line_number: u16, origin: String },
    Boolean { value: bool, line_number: u16, origin: String },
    Label { name: String, line_number: u16 },
}

impl View for Keyword {
    type V = SpecKeyword;

    open spec fn view(&self) -> SpecKeyword {
        match self {
            Keyword::Mmenonic { name, line_number } => SpecKeyword::Mmenonic {
                name: name@,
                line_number: *line_number,
            },
            Keyword::RegisterAddress { name, line_number } => SpecKeyword::RegisterAddress {
                name: name@,
                line_number: *line_number,
            },
            Keyword::Constant { value, line_number, origin } => SpecKeyword::Constant {
                value: *value,
                line_number: *line_number,
                origin: origin@,
            },
            Keyword::Boolean { value, line_number, origin } => SpecKeyword::Boolean {
                value: *value,
                line_number: *line_number,
                origin: origin@,
            },
            Keyword::Label { name, line_number } => SpecKeyword::Label {
                name: name@,
                line_number: *line_number,
            },
        }
    }
}

/// The view of a token sequence.
pub open spec fn view_keywords(s: Seq<Keyword>) -> Seq<SpecKeyword> {
    s.map_values(|k: Keyword| k@)
}

impl Keyword {
    pub fn mmenonic(name: &str, line_number: u16) -> (k: Keyword)
        ensures
            k@ == (SpecKeyword::Mmenonic { name: name@, line_number }),
    {
        Keyword::Mmenonic { name: name.to_owned(), line_number }
    }

    pub fn register_address(name: &str, line_number: u16) -> (k: Keyword)
        ensures
            k@ == (SpecKeyword::RegisterAddress { name: name@, line_number }),
    {
        Keyword::RegisterAddress { name: name.to_owned(), line_number }
    }

    pub fn constant(origin: &str, value: u16, line_number: u16) -> (k: Keyword)
        ensures
            k@ == (SpecKeyword::Constant { value, line_number, origin: origin@ }),
    {
        Keyword::Constant { origin: origin.to_owned(), value, line_number }
    }

    pub fn label(name: &str, line_number: u16) -> (k: Keyword)
        ensures
            k@ == (SpecKeyword::Label { name: name@, line_number }),
    {
        Keyword::Label { name: name.to_owned(), line_number }
    }

    /// The token's original source text: operand markers are restored, a
    /// constant keeps the literal it was written as.
    pub fn get_original_string(&self) -> (r: String)
        ensures
            r@ == spec_original_string(self@),
    {
        match self {
            Keyword::Mmenonic { name, .. } => name.clone(),
            Keyword::RegisterAddress { name, .. } => {
                let mut s = String::from_str("%");
                s.append(name.as_str());
                s
            },
            Keyword::Label { name, .. } => {
                let mut s = String::from_str(".");
                s.append(name.as_str());
                s
            },
            Keyword::Constant { origin, .. } => origin.clone(),
            Keyword::Boolean { origin, .. } => origin.clone(),
        }
    }
}

/// The original source text of a token.
pub open spec fn spec_original_string(k: SpecKeyword) -> Seq<char> {
    match k {
        SpecKeyword::Mmenonic { name, .. } => name,
        SpecKeyword::RegisterAddress { name, .. } => "%"@ + name,
        SpecKeyword::Label { name, .. } => "."@ + name,
        SpecKeyword::Constant { origin, .. } => origin,
        SpecKeyword::Boolean { origin, .. } => origin,
    }
}

/// The line number a token carries.
pub open spec fn spec_line_number(k: SpecKeyword) -> u16 {
    match k {
        SpecKeyword::Mmenonic { line_number, .. } => line_number,
        SpecKeyword::RegisterAddress { line_number, .. } => line_number,
        SpecKeyword::Constant { line_number, .. } => line_number,
        SpecKeyword::Boolean { line_number, .. } => line_number,
        SpecKeyword::Label { line_number, .. } => line_number,
    }
}

/// Anything that knows which source line it came from.
pub trait LineNumber {
    /// The line number, as a specification value.
    spec fn spec_get_line_number(&self) -> u16;

    /// The line number.
    fn get_line_number(&self) -> (n: u16)
        ensures
            n == self.spec_get_line_number(),
    ;
}

impl LineNumber for Keyword {
    open spec fn spec_get_line_number(&self) -> u16 {
        spec_line_number(self@)
    }

    fn get_line_number(&self) -> (n: u16)
        ensures
            n == self.spec_get_line_number(),
    {
        match self {
            Keyword::Mmenonic { line_number, .. } => *line_number,
            Keyword::RegisterAddress { line_number, .. } => *line_number,
            Keyword::Constant { line_number, .. } => *line_number,
            Keyword::Boolean { line_number, .. } => *line_number,
            Keyword::Label { line_number, .. } => *line_number,
        }
    }
}

/// Token equality, as the lexer and its tests use it: by name for mnemonics,
/// register operands and labels, by value and original text for constants,
/// ignoring line numbers.
pub open spec fn spec_keyword_eq(a: SpecKeyword, b: SpecKeyword) -> bool {
    match (a, b) {
        (SpecKeyword::Label { name: na, .. }, SpecKeyword::Label { name: nb, .. }) => na == nb,
        (
            SpecKeyword::RegisterAddress { name: na, .. },
            SpecKeyword::RegisterAddress { name: nb, .. },
        ) => na == nb,
        (SpecKeyword::Mmenonic { name: na, .. }, SpecKeyword::Mmenonic { name: nb, .. }) => na
            == nb,
        (
            SpecKeyword::Constant { value: va, origin: oa, .. },
            SpecKeyword::Constant { value: vb, origin: ob, .. },
        ) => va == vb && oa == ob,
        _ => false,
    }
}

impl PartialEq for Keyword {
    fn eq(&self, other: &Keyword) -> (r: bool) {
        match (self, other) {
            (Keyword::Label { name: na, .. }, Keyword::Label { name: nb, .. }) => *na == *nb,
            (
                Keyword::RegisterAddress { name: na, .. },
                Keyword::RegisterAddress { name: nb, .. },
            ) => *na == *nb,
            (Keyword::Mmenonic { name: na, .. }, Keyword::Mmenonic { name: nb, .. }) => *na == *nb,
            (
                Keyword::Constant { value: va, origin: oa, .. },
                Keyword::Constant { value: vb, origin: ob, .. },
            ) => *va == *vb && *oa == *ob,
            _ => false,
        }
    }
}

impl vstd::std_specs::cmp::PartialEqSpecImpl for Keyword {
    open spec fn obeys_eq_spec() -> bool {
        true
    }

    open spec fn eq_spec(&self, other: &Keyword) -> bool {
        spec_keyword_eq(self@, other@)
    }
}

// ---------------------------------------------------------------------------
// Errors
// ---------------------------------------------------------------------------

/// The mathematical model of a lexical error.
#[verifier::ext_equal]
pub enum SpecLexerError {
    InvalidRegisterIdentifier { actual: Seq<char>, line_number: u16 },
    InvalidIdentifier { actual: Seq<char>, line_number: u16 },
    CommandAfterCommand { command_name: Seq<char>, line_number: u16 },
    LabelAfterCommand { label_name: Seq<char>, line_number: u16 },
}

/// A lexical error, carrying the offending text and its line number.
#[derive(Debug)]
pub enum LexerError {
    InvalidRegisterIdentifier { actual: String, line_number: u16 },
    InvalidIdentifier { actual: String, line_number: u16 },
    CommandAfterCommand { command_name: String, line_number: u16 },
    LabelAfterCommand { label_name: String, line_number: u16 },
}

impl View for LexerError {
    type V = SpecLexerError;

    open spec fn view(&self) -> SpecLexerError {
        match self {
            LexerError::InvalidRegisterIdentifier { actual, line_number } => {
                SpecLexerError::InvalidRegisterIdentifier {
                    actual: actual@,
                    line_number: *line_number,
                }
            },
            LexerError::InvalidIdentifier { actual, line_number } => {
                SpecLexerError::InvalidIdentifier { actual: actual@, line_number: *line_number }
            },
            LexerError::CommandAfterCommand { command_name, line_number } => {
                SpecLexerError::CommandAfterCommand {
                    command_name: command_name@,
                    line_number: *line_number,
                }
            },
            LexerError::LabelAfterCommand { label_name, line_number } => {
                SpecLexerError::LabelAfterCommand {
                    label_name: label_name@,
                    line_number: *line_number,
                }
            },
        }
    }
}

/// The view of an error sequence.
pub open spec fn view_lexer_errors(s: Seq<LexerError>) -> Seq<SpecLexerError> {
    s.map_values(|e: LexerError| e@)
}

// ---------------------------------------------------------------------------
// Line scanning
// ---------------------------------------------------------------------------

/// The length of `s` with trailing whitespace removed.
pub open spec fn spec_trim_end(s: Seq<char>) -> int
    decreases s.len(),
{
    if s.len() == 0 {
        0
    } else if is_space_char(s.last()) {
        spec_trim_end(s.drop_last())
    } else {
        s.len() as int
    }
}

pub proof fn lemma_trim_end(s: Seq<char>)
    ensures
        0 <= spec_trim_end(s) <= s.len(),
        forall|i: int| spec_trim_end(s) <= i < s.len() ==> is_space_char(#[trigger] s[i]),
        spec_trim_end(s) > 0 ==> !is_space_char(s[spec_trim_end(s) - 1]),
    decreases s.len(),
{
    if s.len() > 0 && is_space_char(s.last()) {
        lemma_trim_end(s.drop_last());
        assert(forall|i: int| 0 <= i < s.len() - 1 ==> s.drop_last()[i] == s[i]);
    }
}

/// The first position in `[i, e)` holding a non-whitespace character, or `e`.
pub open spec fn spec_skip_spaces(s: Seq<char>, i: int, e: int) -> int
    decreases e - i,
{
    if i < e && is_space_char(s[i]) {
        spec_skip_spaces(s, i + 1, e)
    } else {
        i
    }
}

/// The first position in `[i, e)` holding whitespace, or `e`.
pub open spec fn spec_word_end(s: Seq<char>, i: int, e: int) -> int
    decreases e - i,
{
    if i < e && !is_space_char(s[i]) {
        spec_word_end(s, i + 1, e)
    } else {
        i
    }
}

pub proof fn lemma_word_end(s: Seq<char>, i: int, e: int)
    requires
        0 <= i <= e <= s.len(),
    ensures
        i <= spec_word_end(s, i, e) <= e,
        forall|k: int| i <= k < spec_word_end(s, i, e) ==> !is_space_char(#[trigger] s[k]),
        spec_word_end(s, i, e) < e ==> is_space_char(s[spec_word_end(s, i, e)]),
    decreases e - i,
{
    if i < e && !is_space_char(s[i]) {
        lemma_word_end(s, i + 1, e);
    }
}

/// The first position of `;` in `[i, e)`, or `e`.
pub open spec fn spec_find_semi(s: Seq<char>, i: int, e: int) -> int
    decreases e - i,
{
    if i < e && s[i] != ';' {
        spec_find_semi(s, i + 1, e)
    } else {
        i
    }
}

fn trim_end(line: &str) -> (e: usize)
    ensures
        e == spec_trim_end(line@),
        e <= line@.len(),
{
    let ghost s = line@;
    let mut j: usize = line.unicode_len();
    proof {
        assert(s.take(j as int) =~= s);
    }
    while j > 0 && char_is_space(line.get_char(j - 1))
        invariant
            j <= s.len(),
            s == line@,
            spec_trim_end(s) == spec_trim_end(s.take(j as int)),
        decreases j,
    {
        proof {
            assert(s.take(j as int).drop_last() =~= s.take(j as int - 1));
            assert(s.take(j as int).last() == s[j as int - 1]);
        }
        j = j - 1;
    }
    proof {
        if j > 0 {
            assert(s.take(j as int).last() == s[j as int - 1]);
            assert(spec_trim_end(s.take(j as int)) == j as int);
        } else {
            assert(s.take(0) =~= Seq::<char>::empty());
        }
    }
    j
}

fn skip_spaces(line: &str, i: usize, e: usize) -> (j: usize)
    requires
        i <= e <= line@.len(),
    ensures
        j == spec_skip_spaces(line@, i as int, e as int),
        i <= j <= e,
        j < e ==> !is_space_char(line@[j as int]),
{
    let ghost s = line@;
    let mut j = i;
    while j < e && char_is_space(line.get_char(j))
        invariant
            i <= j <= e <= s.len(),
            s == line@,
            spec_skip_spaces(s, i as int, e as int) == spec_skip_spaces(s, j as int, e as int),
        decreases e - j,
    {
        j = j + 1;
    }
    j
}

fn word_end(line: &str, i: usize, e: usize) -> (j: usize)
    requires
        i <= e <= line@.len(),
    ensures
        j == spec_word_end(line@, i as int, e as int),
        i <= j <= e,
{
    let ghost s = line@;
    let mut j = i;
    while j < e && !char_is_space(line.get_char(j))
        invariant
            i <= j <= e <= s.len(),
            s == line@,
            spec_word_end(s, i as int, e as int) == spec_word_end(s, j as int, e as int),
        decreases e - j,
    {
        j = j + 1;
    }
    j
}

fn find_semi(line: &str, i: usize, e: usize) -> (j: usize)
    requires
        i <= e <= line@.len(),
    ensures
        j == spec_find_semi(line@, i as int, e as int),
        i <= j <= e,
{
    let ghost s = line@;
    let mut j = i;
    while j < e && line.get_char(j) != ';'
        invariant
            i <= j <= e <= s.len(),
            s == line@,
            spec_find_semi(s, i as int, e as int) == spec_find_semi(s, j as int, e as int),
        decreases e - j,
    {
        j = j + 1;
    }
    j
}

/// Whether two string slices hold the same characters.
pub fn str_eq(a: &str, b: &str) -> (r: bool)
    ensures
        r == (a@ == b@),
{
    let la = a.unicode_len();
    let lb = b.unicode_len();
    if la != lb {
        proof {
            assert(a@ != b@);
        }
        return false;
    }
    let mut i: usize = 0;
    while i < la
        invariant
            i <= la,
            la == a@.len() && la == b@.len(),
            forall|k: int| 0 <= k < i ==> a@[k] == b@[k],
        decreases la - i,
    {
        if a.get_char(i) != b.get_char(i) {
            proof {
                assert(a@[i as int] != b@[i as int]);
            }
            return false;
        }
        i = i + 1;
    }
    proof {
        assert(a@ =~= b@);
    }
    true
}

// ---------------------------------------------------------------------------
// Numerals
// ---------------------------------------------------------------------------

/// The digit body with one optional leading `+` removed, as
/// `u16::from_str_radix` accepts it.
pub open spec fn spec_plus_stripped(s: Seq<char>) -> Seq<char> {
    if s.len() > 0 && s[0] == '+' {
        s.drop_first()
    } else {
        s
    }
}

/// The value of a digit string read in the given radix.
pub open spec fn spec_digits_value(s: Seq<char>, radix: int) -> int
    decreases s.len(),
{
    if s.len() == 0 {
        0
    } else {
        spec_digits_value(s.drop_last(), radix) * radix + spec_digit_value(s.last())
    }
}

/// Whether every character is a digit of the radix.
pub open spec fn all_radix_digits(s: Seq<char>, radix: int) -> bool {
    forall|i: int| 0 <= i < s.len() ==> is_radix_digit(#[trigger] s[i], radix)
}

/// The 16-bit value of a numeral body: defined when, after stripping one
/// optional `+`, at least one character remains, all are digits of the
/// radix, and the value fits; exactly as `u16::from_str_radix` accepts it.
pub open spec fn spec_parse_u16(s: Seq<char>, radix: int) -> Option<u16> {
    let digits = spec_plus_stripped(s);
    if digits.len() > 0 && all_radix_digits(digits, radix) && spec_digits_value(digits, radix)
        <= 0xFFFF {
        Some(spec_digits_value(digits, radix) as u16)
    } else {
        None
    }
}

pub proof fn lemma_digits_value_nonneg(s: Seq<char>, radix: int)
    requires
        radix >= 2,
        all_radix_digits(s, radix),
    ensures
        spec_digits_value(s, radix) >= 0,
    decreases s.len(),
{
    if s.len() > 0 {
        assert(forall|i: int| 0 <= i < s.len() - 1 ==> s.drop_last()[i] == s[i]);
        lemma_digits_value_nonneg(s.drop_last(), radix);
        let v = spec_digits_value(s.drop_last(), radix);
        assert(v * radix >= 0) by (nonlinear_arith)
            requires
                v >= 0,
                radix >= 2,
        ;
    }
}

/// A prefix of a digit string never has a larger value than the whole.
pub proof fn lemma_digits_value_take_le(s: Seq<char>, radix: int, i: int)
    requires
        radix >= 2,
        all_radix_digits(s, radix),
        0 <= i <= s.len(),
    ensures
        spec_digits_value(s.take(i), radix) <= spec_digits_value(s, radix),
    decreases s.len() - i,
{
    if i == s.len() {
        assert(s.take(i) =~= s);
    } else {
        assert(forall|k: int| 0 <= k < i ==> s.take(i)[k] == s[k]);
        assert(all_radix_digits(s.take(i), radix));
        lemma_digits_value_nonneg(s.take(i), radix);
        let v = spec_digits_value(s.take(i), radix);
        assert(s.take(i + 1).drop_last() =~= s.take(i));
        assert(s.take(i + 1).last() == s[i]);
        assert(v * radix >= v) by (nonlinear_arith)
            requires
                v >= 0,
                radix >= 2,
        ;
        assert(spec_digits_value(s.take(i + 1), radix) >= v);
        lemma_digits_value_take_le(s, radix, i + 1);
    }
}

/// Reads the digits of `line[start..end)` in the given radix, as
/// `u16::from_str_radix` would.
fn parse_digits(line: &str, start: usize, end: usize, radix: u32) -> (r: Option<u16>)
    requires
        start <= end <= line@.len(),
        radix == 2 || radix == 10 || radix == 16,
    ensures
        r == spec_parse_u16(line@.subrange(start as int, end as int), radix as int),
{
    let ghost s0 = line@.subrange(start as int, end as int);
    let mut i = start;
    if i < end && line.get_char(i) == '+' {
        i = i + 1;
    }
    let ghost dstart = i as int;
    let ghost digits = line@.subrange(dstart, end as int);
    proof {
        assert(digits =~= spec_plus_stripped(s0));
    }
    if i == end {
        return None;
    }
    let mut v: u32 = 0;
    proof {
        assert(digits.take(0) =~= Seq::<char>::empty());
    }
    while i < end
        invariant
            dstart <= i <= end <= line@.len(),
            0 <= start as int <= dstart,
            s0 == line@.subrange(start as int, end as int),
            digits == line@.subrange(dstart, end as int),
            digits == spec_plus_stripped(s0),
            digits.len() > 0,
            radix == 2 || radix == 10 || radix == 16,
            v <= 0xFFFF,
            all_radix_digits(digits.take(i - dstart), radix as int),
            v == spec_digits_value(digits.take(i - dstart), radix as int),
        decreases end - i,
    {
        let c = line.get_char(i);
        proof {
            assert(digits[i - dstart] == c);
        }
        let d = digit_value(c);
        if d < 0 || d as u32 >= radix {
            proof {
                assert(!is_radix_digit(digits[i - dstart], radix as int));
            }
            return None;
        }
        proof {
            assert(digits.take(i - dstart + 1).drop_last() =~= digits.take(i - dstart));
            assert(digits.take(i - dstart + 1).last() == digits[i - dstart]);
        }
        let nv = v * radix + (d as u32);
        if nv > 0xFFFF {
            proof {
                assert(all_radix_digits(digits.take(i - dstart + 1), radix as int));
                if all_radix_digits(digits, radix as int) {
                    lemma_digits_value_take_le(digits, radix as int, i - dstart + 1);
                }
            }
            return None;
        }
        v = nv;
        i = i + 1;
    }
    proof {
        assert(digits.take(end - dstart) =~= digits);
    }
    Some(v as u16)
}

/// The sign, radix and digit body of a numeral-shaped word: `-0x`/`0x` for
/// hexadecimal, `-0b`/`0b` for binary, a leading digit (or `-` then digit)
/// for decimal.
pub open spec fn spec_numeral_shape(w: Seq<char>) -> Option<(bool, int, Seq<char>)> {
    if w.len() >= 3 && w[0] == '-' && w[1] == '0' && w[2] == 'x' {
        Some((true, 16, w.skip(3)))
    } else if w.len() >= 2 && w[0] == '0' && w[1] == 'x' {
        Some((false, 16, w.skip(2)))
    } else if w.len() >= 3 && w[0] == '-' && w[1] == '0' && w[2] == 'b' {
        Some((true, 2, w.skip(3)))
    } else if w.len() >= 2 && w[0] == '0' && w[1] == 'b' {
        Some((false, 2, w.skip(2)))
    } else if w.len() >= 1 && is_dec_digit(w[0]) {
        Some((false, 10, w))
    } else if w.len() >= 2 && w[0] == '-' && is_dec_digit(w[1]) {
        Some((true, 10, w.skip(1)))
    } else {
        None
    }
}

/// The 16-bit wrap of the negation of `v`.
pub open spec fn spec_wrapping_neg(v: u16) -> u16 {
    ((0x10000 - v as int) % 0x10000) as u16
}

fn wrapping_neg16(v: u16) -> (r: u16)
    ensures
        r == spec_wrapping_neg(v),
{
    if v == 0 {
        proof {
            assert(0x10000int % 0x10000 == 0);
        }
        0
    } else {
        proof {
            lemma_small_mod((0x10000 - v as int) as nat, 0x10000);
        }
        (0xFFFF - v) + 1
    }
}

/// The token value of a numeral-shaped word: its digit body read in its
/// radix, negated with 16-bit wrap-around when the word is signed; `None`
/// when the word is not a numeral or its body does not parse.
pub open spec fn spec_constant_value(w: Seq<char>) -> Option<u16> {
    match spec_numeral_shape(w) {
        None => None,
        Some((neg, radix, body)) => match spec_parse_u16(body, radix) {
            None => None,
            Some(v) => Some(
                if neg {
                    spec_wrapping_neg(v)
                } else {
                    v
                },
            ),
        },
    }
}

fn char_is_dec(c: char) -> (b: bool)
    ensures
        b == is_dec_digit(c),
{
    let u = c as u32;
    48 <= u && u <= 57
}

fn word_constant_value(word: &str, len: usize) -> (r: Option<u16>)
    requires
        len == word@.len(),
    ensures
        r == spec_constant_value(word@),
{
    let ghost w = word@;
    let (neg, radix, dstart): (bool, u32, usize) = if len >= 3 && word.get_char(0) == '-'
        && word.get_char(1) == '0' && word.get_char(2) == 'x' {
        (true, 16, 3)
    } else if len >= 2 && word.get_char(0) == '0' && word.get_char(1) == 'x' {
        (false, 16, 2)
    } else if len >= 3 && word.get_char(0) == '-' && word.get_char(1) == '0' && word.get_char(2)
        == 'b' {
        (true, 2, 3)
    } else if len >= 2 && word.get_char(0) == '0' && word.get_char(1) == 'b' {
        (false, 2, 2)
    } else if len >= 1 && char_is_dec(word.get_char(0)) {
        (false, 10, 0)
    } else if len >= 2 && word.get_char(0) == '-' && char_is_dec(word.get_char(1)) {
        (true, 10, 1)
    } else {
        proof {
            assert(spec_numeral_shape(w) is None);
        }
        return None;
    };
    proof {
        assert(spec_numeral_shape(w) == Some((neg, radix as int, w.skip(dstart as int))));
        assert(w.skip(dstart as int) =~= w.subrange(dstart as int, len as int));
    }
    match parse_digits(word, dstart, len, radix) {
        None => None,
        Some(v) => if neg {
            Some(wrapping_neg16(v))
        } else {
            Some(v)
        },
    }
}

/// The mathematical value of a numeral-shaped word: the signed value of its
/// digit body, before any wrapping.
pub open spec fn spec_numeral_math_value(w: Seq<char>) -> int {
    match spec_numeral_shape(w) {
        None => 0,
        Some((neg, radix, body)) => {
            let m = spec_digits_value(spec_plus_stripped(body), radix);
            if neg {
                -m
            } else {
                m
            }
        },
    }
}

// ---------------------------------------------------------------------------
// Word classification
// ---------------------------------------------------------------------------

/// Whether every character is an ASCII letter or digit.
pub open spec fn all_alnum(w: Seq<char>) -> bool {
    forall|i: int| 0 <= i < w.len() ==> is_alnum_char(#[trigger] w[i])
}

/// The classification of an operand word, in priority order: a `%`-marked
/// register operand, a numeral constant (keeping its original text), a bare
/// alphanumeric identifier (a label token), else an invalid identifier.
pub open spec fn spec_word_type(w: Seq<char>, line_number: u16) -> Result<
    SpecKeyword,
    SpecLexerError,
> {
    if w.len() > 0 && w[0] == '%' {
        Ok(SpecKeyword::RegisterAddress { name: w.drop_first(), line_number })
    } else if spec_constant_value(w) is Some {
        Ok(
            SpecKeyword::Constant {
                value: spec_constant_value(w)->Some_0,
                line_number,
                origin: w,
            },
        )
    } else if all_alnum(w) {
        Ok(SpecKeyword::Label { name: w, line_number })
    } else {
        Err(SpecLexerError::InvalidIdentifier { actual: w, line_number })
    }
}

/// Classifies one operand word.
pub fn word_type(word: &str, line_number: u16) -> (r: Result<Keyword, LexerError>)
    ensures
        match r {
            Ok(k) => spec_word_type(word@, line_number) == Ok::<SpecKeyword, SpecLexerError>(k@),
            Err(e) => spec_word_type(word@, line_number) == Err::<SpecKeyword, SpecLexerError>(
                e@,
            ),
        },
{
    let len = word.unicode_len();
    if len >= 1 && word.get_char(0) == '%' {
        let name = word.substring_char(1, len).to_owned();
        proof {
            assert(name@ =~= word@.drop_first());
        }
        return Ok(Keyword::RegisterAddress { name, line_number });
    }
    match word_constant_value(word, len) {
        Some(v) => {
            return Ok(Keyword::Constant { value: v, line_number, origin: word.to_owned() });
        },
        None => {},
    }
    let mut i: usize = 0;
    while i < len
        invariant
            i <= len,
            len == word@.len(),
            spec_constant_value(word@) is None,
            !(word@.len() > 0 && word@[0] == '%'),
            forall|k: int| 0 <= k < i ==> is_alnum_char(#[trigger] word@[k]),
        decreases len - i,
    {
        if !char_is_alnum(word.get_char(i)) {
            return Err(LexerError::InvalidIdentifier { actual: word.to_owned(), line_number });
        }
        i = i + 1;
    }
    Ok(Keyword::Label { name: word.to_owned(), line_number })
}

// ---------------------------------------------------------------------------
// Lexing a line
// ---------------------------------------------------------------------------

/// The operand tokens of an instruction line from position `i` on: words up
/// to `e`, classified in order, stopping at the first bad word.  The token
/// sequence holds what was classified before the error.
pub open spec fn spec_lex_operands(s: Seq<char>, i: int, e: int, n: u16) -> (
    Seq<SpecKeyword>,
    Option<SpecLexerError>,
)
    decreases e - i,
{
    let k = spec_skip_spaces(s, i, e);
    if !(0 <= i && i <= k && k < e && e <= s.len()) {
        (Seq::empty(), None)
    } else {
        let j = spec_word_end(s, k, e);
        // A word always ends past where it starts; the guard only makes the
        // recursion visibly terminating.
        let jj = if i < j && j <= e {
            j
        } else {
            i + 1
        };
        match spec_word_type(s.subrange(k, j), n) {
            Ok(kw) => {
                let rest = spec_lex_operands(s, jj, e, n);
                (seq![kw] + rest.0, rest.1)
            },
            Err(er) => (Seq::empty(), Some(er)),
        }
    }
}

/// Lexes the operand words of `line[start..e)`, appending their tokens.
fn lex_operands(keywords: &mut Vec<Keyword>, line: &str, start: usize, e: usize, line_number: u16)
    -> (r: Result<(), LexerError>)
    requires
        start <= e <= line@.len(),
    ensures
        ({
            let (toks, err) = spec_lex_operands(line@, start as int, e as int, line_number);
            &&& view_keywords(final(keywords)@) == view_keywords(old(keywords)@) + toks
            &&& (match r {
                Ok(_) => err is None,
                Err(er) => err == Some(er@),
            })
        }),
{
    let ghost s = line@;
    let ghost mut acc: Seq<SpecKeyword> = Seq::empty();
    let mut pos = start;
    let mut k = skip_spaces(line, pos, e);
    proof {
        assert(view_keywords(keywords@) + Seq::<SpecKeyword>::empty() =~= view_keywords(
            keywords@,
        ));
        assert(view_keywords(keywords@) =~= view_keywords(old(keywords)@) + acc);
    }
    while k < e
        invariant
            start <= pos <= e <= s.len(),
            pos <= k <= e,
            s == line@,
            k == spec_skip_spaces(s, pos as int, e as int),
            k < e ==> !is_space_char(s[k as int]),
            view_keywords(keywords@) == view_keywords(old(keywords)@) + acc,
            spec_lex_operands(s, start as int, e as int, line_number).0 == acc
                + spec_lex_operands(s, pos as int, e as int, line_number).0,
            spec_lex_operands(s, start as int, e as int, line_number).1 == spec_lex_operands(
                s,
                pos as int,
                e as int,
                line_number,
            ).1,
        decreases e - pos,
    {
        let j = word_end(line, k, e);
        proof {
            lemma_word_end(s, k as int + 1, e as int);
            assert(j > k);
        }
        let w = line.substring_char(k, j);
        let ghost rest_here = spec_lex_operands(s, pos as int, e as int, line_number);
        match word_type(w, line_number) {
            Ok(kw) => {
                proof {
                    let rest_next = spec_lex_operands(s, j as int, e as int, line_number);
                    assert(rest_here.0 == seq![kw@] + rest_next.0);
                    assert(rest_here.1 == rest_next.1);
                    assert(spec_lex_operands(s, start as int, e as int, line_number).0 == (acc
                        + seq![kw@]) + rest_next.0) by {
                        assert(acc + (seq![kw@] + rest_next.0) =~= (acc + seq![kw@])
                            + rest_next.0);
                    }
                }
                let ghost pre = keywords@;
                keywords.push(kw);
                proof {
                    assert(view_keywords(keywords@) =~= view_keywords(pre) + seq![kw@]);
                    assert((view_keywords(old(keywords)@) + acc) + seq![kw@] =~= view_keywords(
                        old(keywords)@,
                    ) + (acc + seq![kw@]));
                    acc = acc + seq![kw@];
                }
                pos = j;
                k = skip_spaces(line, pos, e);
            },
            Err(er) => {
                proof {
                    assert(rest_here.0 =~= Seq::<SpecKeyword>::empty());
                    assert(acc + rest_here.0 =~= acc);
                }
                return Err(er);
            },
        }
    }
    proof {
        let rest = spec_lex_operands(s, pos as int, e as int, line_number);
        assert(rest.0 =~= Seq::<SpecKeyword>::empty());
        assert(acc + rest.0 =~= acc);
    }
    Ok(())
}

/// The tokens and optional error of one source line, per the line
/// classification: a (possibly indented) line whose trimmed content ends in
/// `:` yields one label token; an indented line is an instruction, its
/// comment stripped, its first word the mnemonic and the rest operands; any
/// other line yields nothing.
pub open spec fn spec_lex_line(line: Seq<char>, n: u16) -> (
    Seq<SpecKeyword>,
    Option<SpecLexerError>,
) {
    let e = spec_trim_end(line);
    let s = spec_skip_spaces(line, 0, e);
    if s < e && line[e - 1] == ':' {
        (seq![SpecKeyword::Label { name: line.subrange(s, e - 1), line_number: n }], None)
    } else if 0 < s && s < e {
        let e2 = spec_find_semi(line, s, e);
        let k0 = spec_skip_spaces(line, s, e2);
        if k0 >= e2 {
            (Seq::empty(), None)
        } else {
            let m = spec_word_end(line, k0, e2);
            let rest = spec_lex_operands(line, m, e2, n);
            (
                seq![SpecKeyword::Mmenonic { name: line.subrange(k0, m), line_number: n }]
                    + rest.0,
                rest.1,
            )
        }
    } else {
        (Seq::empty(), None)
    }
}

/// Lexes one source line, appending its tokens to `keywords`; on a bad
/// operand the tokens before it stay appended and the error is returned.
pub fn lex_line(keywords: &mut Vec<Keyword>, line: &str, line_number: u16) -> (r: Result<
    (),
    LexerError,
>)
    ensures
        ({
            let (toks, err) = spec_lex_line(line@, line_number);
            &&& view_keywords(final(keywords)@) == view_keywords(old(keywords)@) + toks
            &&& (match r {
                Ok(_) => err is None,
                Err(er) => err == Some(er@),
            })
        }),
{
    let ghost s = line@;
    let e = trim_end(line);
    proof {
        lemma_trim_end(s);
    }
    let s_idx = skip_spaces(line, 0, e);
    if s_idx < e && line.get_char(e - 1) == ':' {
        let name = line.substring_char(s_idx, e - 1).to_owned();
        let ghost pre = keywords@;
        keywords.push(Keyword::Label { name, line_number });
        proof {
            assert(view_keywords(keywords@) =~= view_keywords(pre) + spec_lex_line(
                s,
                line_number,
            ).0);
        }
        Ok(())
    } else if 0 < s_idx && s_idx < e {
        let e2 = find_semi(line, s_idx, e);
        let k0 = skip_spaces(line, s_idx, e2);
        if k0 >= e2 {
            proof {
                assert(view_keywords(keywords@) + spec_lex_line(s, line_number).0
                    =~= view_keywords(keywords@));
            }
            Ok(())
        } else {
            let m = word_end(line, k0, e2);
            let name = line.substring_char(k0, m).to_owned();
            let ghost pre = keywords@;
            keywords.push(Keyword::Mmenonic { name, line_number });
            proof {
                assert(view_keywords(keywords@) =~= view_keywords(pre) + seq![
                    SpecKeyword::Mmenonic { name: s.subrange(k0 as int, m as int), line_number },
                ]);
            }
            let r = lex_operands(keywords, line, m, e2, line_number);
            proof {
                let mn = seq![
                    SpecKeyword::Mmenonic { name: s.subrange(k0 as int, m as int), line_number },
                ];
                let ops = spec_lex_operands(s, m as int, e2 as int, line_number).0;
                assert((view_keywords(pre) + mn) + ops =~= view_keywords(pre) + (mn + ops));
            }
            r
        }
    } else {
        proof {
            assert(view_keywords(keywords@) + spec_lex_line(s, line_number).0 =~= view_keywords(
                keywords@,
            ));
        }
        Ok(())
    }
}

// ---------------------------------------------------------------------------
// Lexing a whole source
// ---------------------------------------------------------------------------

/// Whether a token is the halt mnemonic, compared by name as the lexer does.
pub open spec fn spec_is_hlt(k: SpecKeyword) -> bool {
    match k {
        SpecKeyword::Mmenonic { name, .. } => name == "hlt"@,
        _ => false,
    }
}

/// The tokens and errors of the lines from `i` on, line `i` numbered `i`.
pub open spec fn spec_lex_lines(lines: Seq<Seq<char>>, i: int) -> (
    Seq<SpecKeyword>,
    Seq<SpecLexerError>,
)
    decreases lines.len() - i,
{
    if !(0 <= i && i < lines.len()) {
        (Seq::empty(), Seq::empty())
    } else {
        let (t, err) = spec_lex_line(lines[i], i as u16);
        let rest = spec_lex_lines(lines, i + 1);
        (
            t + rest.0,
            match err {
                Some(er) => seq![er] + rest.1,
                None => rest.1,
            },
        )
    }
}

/// The result of lexing a whole source: all errors when any line had one;
/// otherwise the token sequence, with a halt mnemonic appended when the
/// (non-empty) stream does not already end in one.
pub open spec fn spec_lexer(lines: Seq<Seq<char>>) -> Result<Seq<SpecKeyword>, Seq<SpecLexerError>> {
    let (toks, errs) = spec_lex_lines(lines, 0);
    if errs.len() > 0 {
        Err(errs)
    } else if toks.len() > 0 && !spec_is_hlt(toks.last()) {
        Ok(
            toks.push(
                SpecKeyword::Mmenonic { name: "hlt"@, line_number: lines.len() as u16 },
            ),
        )
    } else {
        Ok(toks)
    }
}

/// Lexes the source lines into a token sequence, or collects every lexical
/// error of the whole source.  A trailing halt mnemonic is appended when the
/// token stream is non-empty and does not already end in one.
pub fn lexer(lines: &Vec<String>) -> (r: Result<Vec<Keyword>, Vec<LexerError>>)
    requires
        lines@.len() <= 0xFFFF,
    ensures
        match r {
            Ok(toks) => spec_lexer(lines.deep_view()) == Ok::<Seq<SpecKeyword>, Seq<SpecLexerError>>(
                view_keywords(toks@),
            ),
            Err(errs) => spec_lexer(lines.deep_view()) == Err::<
                Seq<SpecKeyword>,
                Seq<SpecLexerError>,
            >(view_lexer_errors(errs@)),
        },
{
    let ghost lv = lines.deep_view();
    let mut toks: Vec<Keyword> = Vec::with_capacity(32);
    let mut errs: Vec<LexerError> = Vec::new();
    let ghost mut tacc: Seq<SpecKeyword> = Seq::empty();
    let ghost mut eacc: Seq<SpecLexerError> = Seq::empty();
    let mut i: usize = 0;
    proof {
        assert(view_keywords(toks@) =~= tacc);
        assert(view_lexer_errors(errs@) =~= eacc);
        assert(tacc + spec_lex_lines(lv, 0).0 =~= spec_lex_lines(lv, 0).0);
        assert(eacc + spec_lex_lines(lv, 0).1 =~= spec_lex_lines(lv, 0).1);
    }
    while i < lines.len()
        invariant
            i <= lines@.len() <= 0xFFFF,
            lv == lines.deep_view(),
            view_keywords(toks@) == tacc,
            view_lexer_errors(errs@) == eacc,
            spec_lex_lines(lv, 0).0 == tacc + spec_lex_lines(lv, i as int).0,
            spec_lex_lines(lv, 0).1 == eacc + spec_lex_lines(lv, i as int).1,
        decreases lines@.len() - i,
    {
        proof {
            assert(lv[i as int] == lines@[i as int]@);
        }
        let ghost line_toks = spec_lex_line(lv[i as int], i as u16).0;
        let ghost line_err = spec_lex_line(lv[i as int], i as u16).1;
        let ghost rest = spec_lex_lines(lv, i as int + 1);
        let r = lex_line(&mut toks, lines[i].as_str(), i as u16);
        proof {
            assert(view_keywords(toks@) =~= tacc + line_toks);
            assert((tacc + line_toks) + rest.0 =~= tacc + (line_toks + rest.0));
            tacc = tacc + line_toks;
        }
        match r {
            Ok(_) => {},
            Err(er) => {
                let ghost epre = errs@;
                errs.push(er);
                proof {
                    assert(view_lexer_errors(errs@) =~= view_lexer_errors(epre) + seq![er@]);
                    assert((eacc + seq![er@]) + rest.1 =~= eacc + (seq![er@] + rest.1));
                    eacc = eacc + seq![er@];
                }
            },
        }
        i = i + 1;
    }
    proof {
        assert(spec_lex_lines(lv, i as int).0 =~= Seq::<SpecKeyword>::empty());
        assert(spec_lex_lines(lv, i as int).1 =~= Seq::<SpecLexerError>::empty());
        assert(tacc + Seq::<SpecKeyword>::empty() =~= tacc);
        assert(eacc + Seq::<SpecLexerError>::empty() =~= eacc);
    }
    if errs.len() > 0 {
        Err(errs)
    } else {
        let needs_hlt = match toks.last() {
            None => false,
            Some(Keyword::Mmenonic { name, .. }) => !str_eq(name.as_str(), "hlt"),
            Some(_) => true,
        };
        proof {
            if toks@.len() > 0 {
                assert(view_keywords(toks@).last() == toks@[toks@.len() - 1]@);
            }
        }
        if needs_hlt {
            let n: u16 = lines.len() as u16;
            let ghost pre = toks@;
            toks.push(Keyword::Mmenonic { name: "hlt".to_owned(), line_number: n });
            proof {
                assert(view_keywords(toks@) =~= view_keywords(pre).push(
                    SpecKeyword::Mmenonic { name: "hlt"@, line_number: n },
                ));
            }
            Ok(toks)
        } else {
            Ok(toks)
        }
    }
}

/// Law: for every hex, binary or decimal literal, optionally signed, the
/// lexed constant value is the 16-bit two's-complement wrap of the literal's
/// mathematical value.
pub proof fn lemma_constant_two_complement(w: Seq<char>)
    requires
        spec_constant_value(w) is Some,
    ensures
        spec_constant_value(w)->Some_0 == spec_numeral_math_value(w) % 0x10000,
{
    let (neg, radix, body) = spec_numeral_shape(w)->Some_0;
    let digits = spec_plus_stripped(body);
    let m = spec_digits_value(digits, radix);
    lemma_digits_value_nonneg(digits, radix);
    if neg {
        lemma_mod_add_multiples_vanish(-m, 0x10000);
        assert((0x10000 - m) % 0x10000 == (-m) % 0x10000);
        lemma_mod_division_less_than_divisor(0x10000 - m, 0x10000);
    } else {
        lemma_small_mod(m as nat, 0x10000);
    }
}

} // verus!
