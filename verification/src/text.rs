//! Styled text fragments: the characters that count, and the same
//! characters wrapped in the terminal's styling sequences.

use vstd::prelude::*;
use vstd::string::*;

verus! {

/// Something with a length on screen, counted in characters.
pub trait HasLength {
    /// The number of characters that take up a cell on screen.
    spec fn spec_length(&self) -> nat;

    /// The length, where a `usize` holds it.
    fn length(&self) -> (n: usize)
        requires
            self.spec_length() <= usize::MAX,
        ensures
            n == self.spec_length(),
    ;
}

/// The foreground colours that the game paints with.
#[derive(Clone, Copy, Debug, PartialEq, Eq, Structural)]
pub enum TextColor {
    Blue,
    LightGreen,
    Red,
    Green,
}

/// What starts every styling sequence: the escape character and `[`.
pub open spec fn csi() -> Seq<char> {
    seq!['\u{1b}', '[']
}

/// The sequence that turns faint text on.
pub open spec fn faint_on() -> Seq<char> {
    csi() + seq!['2', 'm']
}

/// The sequence that turns faint text off.
pub open spec fn faint_off() -> Seq<char> {
    csi() + seq!['2', '2', 'm']
}

/// The sequence that turns underlining on.
pub open spec fn underline_on() -> Seq<char> {
    csi() + seq!['4', 'm']
}

/// The sequence that resets every style.
pub open spec fn style_reset() -> Seq<char> {
    csi() + seq!['m']
}

/// The number of a colour in the terminal's palette, in decimal digits.
pub open spec fn palette_digits(color: TextColor) -> Seq<char> {
    match color {
        TextColor::Blue => seq!['4'],
        TextColor::LightGreen => seq!['1', '0'],
        TextColor::Red => seq!['1'],
        TextColor::Green => seq!['2'],
    }
}

/// The sequence that sets the foreground to `color`.
pub open spec fn fg_on(color: TextColor) -> Seq<char> {
    csi() + seq!['3', '8', ';', '5', ';'] + palette_digits(color) + seq!['m']
}

/// The sequence that sets the foreground back to the terminal's default.
pub open spec fn fg_reset() -> Seq<char> {
    csi() + seq!['3', '9', 'm']
}

/// What termion's `style::Faint` displays as: `ESC [ 2 m`.
#[verifier::external_body]
fn faint_code() -> (code: String)
    ensures
        code@ == faint_on(),
{
    termion::style::Faint.to_string()
}

/// What termion's `style::NoFaint` displays as: `ESC [ 2 2 m`.
#[verifier::external_body]
fn no_faint_code() -> (code: String)
    ensures
        code@ == faint_off(),
{
    termion::style::NoFaint.to_string()
}

/// What termion's `style::Underline` displays as: `ESC [ 4 m`.
#[verifier::external_body]
fn underline_code() -> (code: String)
    ensures
        code@ == underline_on(),
{
    termion::style::Underline.to_string()
}

/// What termion's `style::Reset` displays as: `ESC [ m`.
#[verifier::external_body]
fn style_reset_code() -> (code: String)
    ensures
        code@ == style_reset(),
{
    termion::style::Reset.to_string()
}

/// What termion's `color::Fg(color::Blue)` displays as:
/// `ESC [ 3 8 ; 5 ; 4 m`.
#[verifier::external_body]
fn blue_code() -> (code: String)
    ensures
        code@ == fg_on(TextColor::Blue),
{
    termion::color::Fg(termion::color::Blue).to_string()
}

/// What termion's `color::Fg(color::LightGreen)` displays as:
/// `ESC [ 3 8 ; 5 ; 1 0 m`.
#[verifier::external_body]
fn light_green_code() -> (code: String)
    ensures
        code@ == fg_on(TextColor::LightGreen),
{
    termion::color::Fg(termion::color::LightGreen).to_string()
}

/// What termion's `color::Fg(color::Red)` displays as:
/// `ESC [ 3 8 ; 5 ; 1 m`.
#[verifier::external_body]
fn red_code() -> (code: String)
    ensures
        code@ == fg_on(TextColor::Red),
{
    termion::color::Fg(termion::color::Red).to_string()
}

/// What termion's `color::Fg(color::Green)` displays as:
/// `ESC [ 3 8 ; 5 ; 2 m`.
#[verifier::external_body]
fn green_code() -> (code: String)
    ensures
        code@ == fg_on(TextColor::Green),
{
    termion::color::Fg(termion::color::Green).to_string()
}

/// The sequence that sets the foreground to `color`.
fn fg_code(color: TextColor) -> (code: String)
    ensures
        code@ == fg_on(color),
{
    match color {
        TextColor::Blue => blue_code(),
        TextColor::LightGreen => light_green_code(),
        TextColor::Red => red_code(),
        TextColor::Green => green_code(),
    }
}

/// What termion's `color::Fg(color::Reset)` displays as: `ESC [ 3 9 m`.
#[verifier::external_body]
fn fg_reset_code() -> (code: String)
    ensures
        code@ == fg_reset(),
{
    termion::color::Fg(termion::color::Reset).to_string()
}

/// `String::push` appends one character.
pub assume_specification[ String::push ](s: &mut String, ch: char)
    ensures
        final(s)@ == old(s)@.push(ch),
;

/// The characters of a string, one by one.
pub fn chars_of(s: &str) -> (chars: Vec<char>)
    ensures
        chars@ == s@,
{
    broadcast use vstd::string::group_string_axioms;

    let mut chars: Vec<char> = Vec::new();
    for c in it: s.chars()
        invariant
            it.seq() == s@,
            chars@ == it.seq().take(it.index()),
    {
        chars.push(c);
    }
    chars
}

/// The character of a decimal digit.
pub open spec fn digit(d: int) -> char {
    if d == 0 {
        '0'
    } else if d == 1 {
        '1'
    } else if d == 2 {
        '2'
    } else if d == 3 {
        '3'
    } else if d == 4 {
        '4'
    } else if d == 5 {
        '5'
    } else if d == 6 {
        '6'
    } else if d == 7 {
        '7'
    } else if d == 8 {
        '8'
    } else {
        '9'
    }
}

/// A number written in decimal, without leading zeros.
pub open spec fn decimal(n: nat) -> Seq<char>
    decreases n,
{
    if n < 10 {
        seq![digit(n as int)]
    } else {
        decimal(n / 10).push(digit((n % 10) as int))
    }
}

/// The character of the digit `d`.
fn digit_char(d: u8) -> (c: char)
    requires
        d < 10,
    ensures
        c == digit(d as int),
{
    if d == 0 {
        '0'
    } else if d == 1 {
        '1'
    } else if d == 2 {
        '2'
    } else if d == 3 {
        '3'
    } else if d == 4 {
        '4'
    } else if d == 5 {
        '5'
    } else if d == 6 {
        '6'
    } else if d == 7 {
        '7'
    } else if d == 8 {
        '8'
    } else {
        '9'
    }
}

/// Appends `n` in decimal to `s`.
pub fn push_decimal(s: &mut String, n: u128)
    ensures
        final(s)@ == old(s)@ + decimal(n as nat),
    decreases n,
{
    if n >= 10 {
        push_decimal(s, n / 10);
    }
    s.push(digit_char((n % 10) as u8));
    assert(s@ =~= old(s)@ + decimal(n as nat));
}

/// A piece of text to show: `formatted_text` is what the reader sees and what
/// is counted, `raw_text` is what is sent to the terminal.
#[derive(Debug, PartialEq, Eq)]
pub struct Text {
    raw_text: String,
    formatted_text: String,
    length: usize,
}

impl Text {
    #[verifier::type_invariant]
    spec fn counted(&self) -> bool {
        self.length == self.formatted_text@.len()
    }

    /// The characters that are counted.
    pub closed spec fn plain(&self) -> Seq<char> {
        self.formatted_text@
    }

    /// The characters sent to the terminal, styling included.
    pub closed spec fn raw(&self) -> Seq<char> {
        self.raw_text@
    }

    /// The text of a string, unstyled.
    pub fn new(text: String) -> (t: Text)
        ensures
            t.plain() == text@,
            t.raw() == text@,
            t.spec_length() == text@.len(),
    {
        let len = text.as_str().unicode_len();
        Text { raw_text: text.clone(), formatted_text: text, length: len }
    }

    /// The text of a string slice, unstyled.
    pub fn from_str(text: &str) -> (t: Text)
        ensures
            t.plain() == text@,
            t.raw() == text@,
            t.spec_length() == text@.len(),
    {
        Text::new(String::from_str(text))
    }

    /// The text of one character, unstyled.
    pub fn from_char(c: char) -> (t: Text)
        ensures
            t.plain() == seq![c],
            t.raw() == seq![c],
            t.spec_length() == 1,
    {
        let mut s = String::new();
        s.push(c);
        assert(s@ == seq![c]);
        Text::new(s)
    }

    /// The same text, shown faint.
    pub fn with_faint(self) -> (t: Text)
        ensures
            t.plain() == self.plain(),
            t.raw() == faint_on() + self.raw() + faint_off(),
            t.spec_length() == self.spec_length(),
            t.spec_length() == t.plain().len(),
    {
        proof {
            use_type_invariant(&self);
        }
        let mut raw = faint_code();
        raw.append(self.raw_text.as_str());
        raw.append(no_faint_code().as_str());
        Text { raw_text: raw, formatted_text: self.formatted_text, length: self.length }
    }

    /// The same text, underlined.
    pub fn with_underline(self) -> (t: Text)
        ensures
            t.plain() == self.plain(),
            t.raw() == underline_on() + self.raw() + style_reset(),
            t.spec_length() == self.spec_length(),
            t.spec_length() == t.plain().len(),
    {
        proof {
            use_type_invariant(&self);
        }
        let mut raw = underline_code();
        raw.append(self.raw_text.as_str());
        raw.append(style_reset_code().as_str());
        Text { raw_text: raw, formatted_text: self.formatted_text, length: self.length }
    }

    /// The same text, in `color`.
    pub fn with_color(self, color: TextColor) -> (t: Text)
        ensures
            t.plain() == self.plain(),
            t.raw() == fg_on(color) + self.raw() + fg_reset(),
            t.spec_length() == self.spec_length(),
            t.spec_length() == t.plain().len(),
    {
        proof {
            use_type_invariant(&self);
        }
        let mut raw = fg_code(color);
        raw.append(self.raw_text.as_str());
        raw.append(fg_reset_code().as_str());
        Text { raw_text: raw, formatted_text: self.formatted_text, length: self.length }
    }

    /// What is sent to the terminal.
    pub fn raw_text(&self) -> (s: &String)
        ensures
            s@ == self.raw(),
    {
        &self.raw_text
    }

    /// What the reader sees, and what is counted.
    pub fn text(&self) -> (s: &String)
        ensures
            s@ == self.plain(),
            s@.len() == self.spec_length(),
    {
        proof {
            use_type_invariant(self);
        }
        &self.formatted_text
    }
}

impl Clone for Text {
    fn clone(&self) -> (t: Text)
        ensures
            t == *self,
    {
        proof {
            use_type_invariant(self);
        }
        Text {
            raw_text: self.raw_text.clone(),
            formatted_text: self.formatted_text.clone(),
            length: self.length,
        }
    }
}

impl From<String> for Text {
    fn from(text: String) -> (t: Text)
        ensures
            t.plain() == text@,
            t.raw() == text@,
            t.spec_length() == text@.len(),
    {
        let len = text.as_str().unicode_len();
        Text { raw_text: text.clone(), formatted_text: text, length: len }
    }
}

impl vstd::std_specs::convert::FromSpecImpl<String> for Text {
    open spec fn obeys_from_spec() -> bool {
        true
    }

    closed spec fn from_spec(text: String) -> Text {
        Text { raw_text: text, formatted_text: text, length: text@.len() as usize }
    }
}

impl HasLength for Text {
    closed spec fn spec_length(&self) -> nat {
        self.length as nat
    }

    fn length(&self) -> (n: usize)
        ensures
            n == self.plain().len(),
    {
        proof {
            use_type_invariant(self);
        }
        self.length
    }
}

/// The length of a fragment is one that a `usize` holds.
pub proof fn lemma_length_fits(t: &Text)
    ensures
        t.spec_length() <= usize::MAX,
{
}

/// The characters counted in a row of fragments.
pub open spec fn total_length(texts: Seq<Text>) -> nat
    decreases texts.len(),
{
    if texts.len() == 0 {
        0
    } else {
        total_length(texts.drop_last()) + texts.last().spec_length()
    }
}

impl HasLength for [Text] {
    open spec fn spec_length(&self) -> nat {
        total_length(self@)
    }

    fn length(&self) -> (n: usize) {
        let mut sum: usize = 0;
        let mut i: usize = 0;
        while i < self.len()
            invariant
                i <= self.len(),
                sum == total_length(self@.take(i as int)),
                total_length(self@) <= usize::MAX,
            decreases self.len() - i,
        {
            proof {
                assert(self@.take(i + 1).drop_last() == self@.take(i as int));
                lemma_total_length_prefix(self@, i + 1);
            }
            sum = sum + self[i].length();
            i += 1;
        }
        proof {
            assert(self@.take(i as int) == self@);
        }
        sum
    }
}

/// The first fragments of a row count no more characters than the row.
pub proof fn lemma_total_length_prefix(texts: Seq<Text>, n: int)
    requires
        0 <= n <= texts.len(),
    ensures
        total_length(texts.take(n)) <= total_length(texts),
    decreases texts.len(),
{
    if n < texts.len() {
        assert(texts.drop_last().take(n) == texts.take(n));
        lemma_total_length_prefix(texts.drop_last(), n);
    } else {
        assert(texts.take(n) == texts);
    }
}

/// The characters counted in a row of fragments, where a `usize` holds
/// their number.
pub fn checked_length(texts: &[Text]) -> (counted: Option<usize>)
    ensures
        counted is Some <==> total_length(texts@) <= usize::MAX,
        counted matches Some(n) ==> n == total_length(texts@),
{
    let mut sum: usize = 0;
    let mut i: usize = 0;
    while i < texts.len()
        invariant
            i <= texts.len(),
            sum == total_length(texts@.take(i as int)),
        decreases texts.len() - i,
    {
        proof {
            assert(texts@.take(i + 1).drop_last() == texts@.take(i as int));
            lemma_total_length_prefix(texts@, i + 1);
        }
        let text = &texts[i];
        proof {
            use_type_invariant(text);
        }
        let len = text.length();
        if len > usize::MAX - sum {
            return None;
        }
        sum = sum + len;
        i += 1;
    }
    proof {
        assert(texts@.take(i as int) == texts@);
    }
    Some(sum)
}

/// The counted characters of a column of lines, one line after the other.
pub open spec fn flat_text(lines: Seq<Text>) -> Seq<char>
    decreases lines.len(),
{
    if lines.len() == 0 {
        Seq::empty()
    } else {
        flat_text(lines.drop_last()) + lines.last().plain()
    }
}

} // verus!
