//! Source text as a sequence of characters, and the runs and words that
//! the grammar is made of.

use vstd::prelude::*;
use vstd::string::*;

verus! {

/// Whether `char::is_alphabetic` holds of the character.
pub uninterp spec fn alphabetic(c: char) -> bool;

/// Whether `char::is_whitespace` holds of the character.
pub uninterp spec fn whitespace(c: char) -> bool;

/// `char::is_alphabetic`, which tells whether Unicode counts the
/// character as alphabetic.
#[verifier::external_body]
fn is_alphabetic(c: char) -> (b: bool)
    ensures
        b == alphabetic(c),
{
    c.is_alphabetic()
}

/// `char::is_whitespace`, which tells whether Unicode counts the
/// character as white space.
#[verifier::external_body]
fn is_whitespace(c: char) -> (b: bool)
    ensures
        b == whitespace(c),
{
    c.is_whitespace()
}

/// The kinds of character that the grammar reads in runs.
#[derive(Clone, Copy, Debug)]
pub enum CharClass {
    /// Blank space between phrases.
    Space,
    /// What words are made of.
    Letter,
    /// A decimal digit, `0` to `9`.
    Digit,
    /// Anything but a double quote.
    Unquoted,
}

/// Whether the character is of the class.
pub open spec fn in_class(class: CharClass, c: char) -> bool {
    match class {
        CharClass::Space => whitespace(c),
        CharClass::Letter => alphabetic(c),
        CharClass::Digit => '0' <= c <= '9',
        CharClass::Unquoted => c != '"',
    }
}

/// The end of the longest run of characters of the class that starts at
/// `p`; `p` itself where there is none.
pub open spec fn run_end(s: Seq<char>, p: int, class: CharClass) -> int
    decreases s.len() - p,
{
    if 0 <= p < s.len() && in_class(class, s[p]) {
        run_end(s, p + 1, class)
    } else {
        p
    }
}

/// A run ends at or after its start and, where it starts within the
/// text, within the text.
pub broadcast proof fn lemma_run_end_bounds(s: Seq<char>, p: int, class: CharClass)
    ensures
        p <= #[trigger] run_end(s, p, class),
        p <= s.len() ==> run_end(s, p, class) <= s.len(),
    decreases s.len() - p,
{
    if 0 <= p < s.len() && in_class(class, s[p]) {
        lemma_run_end_bounds(s, p + 1, class);
    }
}

/// Every place of a run holds a character of its class.
pub proof fn lemma_run_members(s: Seq<char>, p: int, class: CharClass)
    requires
        0 <= p,
    ensures
        forall|i: int|
            p <= i < run_end(s, p, class) ==> 0 <= i < s.len() && in_class(class, #[trigger] s[i]),
    decreases s.len() - p,
{
    lemma_run_end_bounds(s, p, class);
    if 0 <= p < s.len() && in_class(class, s[p]) {
        lemma_run_members(s, p + 1, class);
    }
}

/// Whether the characters of `w` stand in `s` from place `p` on.
pub open spec fn has_word(s: Seq<char>, p: int, w: Seq<char>) -> bool {
    0 <= p && p + w.len() <= s.len() && s.subrange(p, p + w.len()) == w
}

/// The number that a digit stands for.
pub open spec fn digit_value(c: char) -> int {
    c as int - '0' as int
}

/// The number that a sequence of digits denotes in base ten.
pub open spec fn decimal(digits: Seq<char>) -> int
    decreases digits.len(),
{
    if digits.len() == 0 {
        0
    } else {
        decimal(digits.drop_last()) * 10 + digit_value(digits.last())
    }
}

/// The digits up to some place denote no more than all of them do.
pub proof fn lemma_decimal_prefix(digits: Seq<char>, k: int)
    requires
        0 <= k <= digits.len(),
        forall|i: int| 0 <= i < digits.len() ==> in_class(CharClass::Digit, #[trigger] digits[i]),
    ensures
        0 <= decimal(digits.subrange(0, k)) <= decimal(digits),
    decreases digits.len() - k,
{
    if k == digits.len() {
        assert(digits.subrange(0, k) =~= digits);
        lemma_decimal_nonnegative(digits);
    } else {
        lemma_decimal_prefix(digits, k + 1);
        let longer = digits.subrange(0, k + 1);
        assert(longer.drop_last() =~= digits.subrange(0, k));
        assert(longer.last() == digits[k]);
        assert forall|i: int| 0 <= i < k implies in_class(
            CharClass::Digit,
            #[trigger] digits.subrange(0, k)[i],
        ) by {}
        lemma_decimal_nonnegative(digits.subrange(0, k));
    }
}

/// Digits denote no negative number.
pub proof fn lemma_decimal_nonnegative(digits: Seq<char>)
    requires
        forall|i: int| 0 <= i < digits.len() ==> in_class(CharClass::Digit, #[trigger] digits[i]),
    ensures
        0 <= decimal(digits),
    decreases digits.len(),
{
    if digits.len() > 0 {
        assert forall|i: int| 0 <= i < digits.len() - 1 implies in_class(
            CharClass::Digit,
            #[trigger] digits.drop_last()[i],
        ) by {}
        lemma_decimal_nonnegative(digits.drop_last());
        assert(in_class(CharClass::Digit, digits[digits.len() - 1]));
    }
}

/// A text held both as it was given and character by character.
pub struct Source<'a> {
    text: &'a str,
    chars: Vec<char>,
}

impl<'a> View for Source<'a> {
    type V = Seq<char>;

    closed spec fn view(&self) -> Seq<char> {
        self.text@
    }
}

impl<'a> Source<'a> {
    /// Both forms hold the same characters.
    pub closed spec fn wf(&self) -> bool {
        self.chars@ == self.text@
    }

    /// Takes a text apart into its characters.
    pub fn new(text: &'a str) -> (src: Self)
        ensures
            src.wf(),
            src@ == text@,
    {
        let mut chars: Vec<char> = Vec::new();
        for c in it: text.chars()
            invariant
                it.seq() == text@,
                chars@ == it.seq().take(it.index() as int),
        {
            chars.push(c);
        }
        assert(chars@ =~= text@);
        Source { text, chars }
    }

    /// The number of characters.
    pub fn len(&self) -> (n: usize)
        requires
            self.wf(),
        ensures
            n == self@.len(),
    {
        self.chars.len()
    }

    /// The characters from place `from` up to place `to`, as a string.
    pub fn slice(&self, from: usize, to: usize) -> (t: String)
        requires
            self.wf(),
            from <= to <= self@.len(),
        ensures
            t@ == self@.subrange(from as int, to as int),
    {
        String::from_str(self.text.substring_char(from, to))
    }

    /// Whether the character at place `i` is of the class.
    fn is_at(&self, i: usize, class: CharClass) -> (b: bool)
        requires
            self.wf(),
            i < self@.len(),
        ensures
            b == in_class(class, self@[i as int]),
    {
        let c = self.chars[i];
        match class {
            CharClass::Space => is_whitespace(c),
            CharClass::Letter => is_alphabetic(c),
            CharClass::Digit => '0' <= c && c <= '9',
            CharClass::Unquoted => c != '"',
        }
    }

    /// Whether the word stands in the text from place `p` on.
    pub fn has(&self, p: usize, word: &str) -> (b: bool)
        requires
            self.wf(),
            p <= self@.len(),
        ensures
            b == has_word(self@, p as int, word@),
            self@.len() <= usize::MAX,
    {
        let n = word.unicode_len();
        if n > self.chars.len() - p {
            return false;
        }
        let mut i: usize = 0;
        while i < n
            invariant
                self.wf(),
                n == word@.len(),
                p + n <= self@.len() == self.chars.len(),
                0 <= i <= n,
                forall|j: int| 0 <= j < i ==> self@[p + j] == word@[j],
            decreases n - i,
        {
            if self.chars[p + i] != word.get_char(i) {
                assert(self@.subrange(p as int, p + n)[i as int] != word@[i as int]);
                return false;
            }
            i += 1;
        }
        assert(self@.subrange(p as int, p + n) =~= word@);
        true
    }

    /// Whether the characters from place `from` up to place `to` are
    /// those of the word.
    pub fn is_word(&self, from: usize, to: usize, word: &str) -> (b: bool)
        requires
            self.wf(),
            from <= to <= self@.len(),
        ensures
            b == (self@.subrange(from as int, to as int) == word@),
    {
        let n = word.unicode_len();
        if n != to - from {
            return false;
        }
        self.has(from, word)
    }

    /// The number that the run of digits from place `from` denotes,
    /// where a 32-bit integer holds it.
    pub fn number(&self, from: usize, to: usize) -> (r: Option<i32>)
        requires
            self.wf(),
            from <= self@.len(),
            to == run_end(self@, from as int, CharClass::Digit),
        ensures
            match r {
                Some(n) => n == decimal(self@.subrange(from as int, to as int)),
                None => decimal(self@.subrange(from as int, to as int)) > i32::MAX,
            },
    {
        let ghost digits = self@.subrange(from as int, to as int);
        proof {
            lemma_run_end_bounds(self@, from as int, CharClass::Digit);
            lemma_run_members(self@, from as int, CharClass::Digit);
            assert(digits.subrange(0, 0) =~= Seq::<char>::empty());
        }
        let mut acc: i32 = 0;
        let mut i: usize = from;
        while i < to
            invariant
                self.wf(),
                from <= i <= to <= self@.len(),
                digits == self@.subrange(from as int, to as int),
                forall|j: int|
                    0 <= j < digits.len() ==> in_class(CharClass::Digit, #[trigger] digits[j]),
                0 <= acc == decimal(digits.subrange(0, i - from)),
            decreases to - i,
        {
            let c = self.chars[i];
            let ghost longer = digits.subrange(0, i - from + 1);
            proof {
                assert(longer.drop_last() =~= digits.subrange(0, i - from));
                assert(longer.last() == digits[i - from]);
                assert(in_class(CharClass::Digit, digits[i - from]));
                lemma_decimal_prefix(digits, i - from + 1);
            }
            let d: i32 = (c as u32 - '0' as u32) as i32;
            if acc > (i32::MAX - d) / 10 {
                return None;
            }
            acc = acc * 10 + d;
            i += 1;
        }
        assert(digits.subrange(0, to - from) =~= digits);
        Some(acc)
    }

    /// The end of the run of characters of the class that starts at
    /// `start`.
    pub fn scan(&self, start: usize, class: CharClass) -> (end: usize)
        requires
            self.wf(),
            start <= self@.len(),
        ensures
            end == run_end(self@, start as int, class),
            start <= end <= self@.len(),
    {
        let mut i: usize = start;
        while i < self.chars.len() && self.is_at(i, class)
            invariant
                self.wf(),
                start <= i <= self@.len(),
                run_end(self@, start as int, class) == run_end(self@, i as int, class),
            decreases self@.len() - i,
        {
            i += 1;
        }
        i
    }
}

} // verus!
