//! Character-level scanning: the classes of characters the request grammar
//! distinguishes, and forward and backward searches over a line's characters.

use vstd::prelude::*;
use vstd::string::*;

verus! {

/// A set of characters that a scan looks for or skips.
#[derive(Clone, Copy, Debug)]
pub enum CharClass {
    /// Space, horizontal tab, line feed, form feed and carriage return.
    AsciiWhitespace,
    /// Every character with the Unicode `White_Space` property.
    Whitespace,
    /// The one given character.
    Exactly(char),
}

impl CharClass {
    /// Whether `c` belongs to the class.
    pub open spec fn holds(self, c: char) -> bool {
        match self {
            CharClass::AsciiWhitespace => c == ' ' || c == '\t' || c == '\n' || c == '\x0C' || c
                == '\r',
            CharClass::Whitespace => {
                let u = c as u32;
                (0x09 <= u <= 0x0D) || u == 0x20 || u == 0x85 || u == 0xA0 || u == 0x1680 || (
                0x2000 <= u <= 0x200A) || u == 0x2028 || u == 0x2029 || u == 0x202F || u == 0x205F
                    || u == 0x3000
            },
            CharClass::Exactly(d) => c == d,
        }
    }

    /// Tests membership of one character.
    pub fn contains(self, c: char) -> (member: bool)
        ensures
            member == self.holds(c),
    {
        match self {
            CharClass::AsciiWhitespace => c == ' ' || c == '\t' || c == '\n' || c == '\x0C' || c
                == '\r',
            CharClass::Whitespace => {
                let u: u32 = c as u32;
                (0x09 <= u && u <= 0x0D) || u == 0x20 || u == 0x85 || u == 0xA0 || u == 0x1680 || (
                0x2000 <= u && u <= 0x200A) || u == 0x2028 || u == 0x2029 || u == 0x202F || u
                    == 0x205F || u == 0x3000
            },
            CharClass::Exactly(d) => c == d,
        }
    }
}

/// The least index `i >= from` at which membership of `s[i]` in `class` equals
/// `member`, or `s.len()` where there is no such index.
pub open spec fn seek(s: Seq<char>, from: int, class: CharClass, member: bool) -> int
    decreases s.len() - from,
{
    if from >= s.len() {
        s.len() as int
    } else if class.holds(s[from]) == member {
        from
    } else {
        seek(s, from + 1, class, member)
    }
}

/// The greatest end `e <= upto` such that membership of `s[e - 1]` in `class`
/// equals `member`, or `0` where there is no such end.
pub open spec fn seek_back(s: Seq<char>, upto: int, class: CharClass, member: bool) -> int
    decreases upto,
{
    if upto <= 0 {
        0
    } else if class.holds(s[upto - 1]) == member {
        upto
    } else {
        seek_back(s, upto - 1, class, member)
    }
}

/// `seek` returns the first index that qualifies: it lies in `from..=s.len()`,
/// nothing before it qualifies, and it qualifies itself unless it is `s.len()`.
pub proof fn lemma_seek(s: Seq<char>, from: int, class: CharClass, member: bool)
    requires
        0 <= from <= s.len(),
    ensures
        from <= seek(s, from, class, member) <= s.len(),
        forall|j: int|
            from <= j < seek(s, from, class, member) ==> class.holds(#[trigger] s[j]) != member,
        seek(s, from, class, member) < s.len() ==> class.holds(
            s[seek(s, from, class, member)],
        ) == member,
    decreases s.len() - from,
{
    if from < s.len() && class.holds(s[from]) != member {
        lemma_seek(s, from + 1, class, member);
    }
}

/// `seek_back` returns the last end that qualifies: it lies in `0..=upto`,
/// nothing between it and `upto` qualifies, and the character before it
/// qualifies unless it is `0`.
pub proof fn lemma_seek_back(s: Seq<char>, upto: int, class: CharClass, member: bool)
    requires
        0 <= upto <= s.len(),
    ensures
        0 <= seek_back(s, upto, class, member) <= upto,
        forall|j: int|
            seek_back(s, upto, class, member) <= j < upto ==> class.holds(#[trigger] s[j])
                != member,
        seek_back(s, upto, class, member) > 0 ==> class.holds(
            s[seek_back(s, upto, class, member) - 1],
        ) == member,
    decreases upto,
{
    if upto > 0 && class.holds(s[upto - 1]) != member {
        lemma_seek_back(s, upto - 1, class, member);
    }
}

/// `s` without its leading and trailing whitespace.
pub open spec fn trimmed(s: Seq<char>) -> Seq<char> {
    let start = seek(s, 0, CharClass::Whitespace, false);
    let end = seek_back(s, s.len() as int, CharClass::Whitespace, false);
    if start < end {
        s.subrange(start, end)
    } else {
        Seq::empty()
    }
}

/// Bounds `(start, end)` of the `k`-th word of `s`, counting from zero. Words
/// are the maximal runs of characters that are not ASCII whitespace. Where `s`
/// has no `k`-th word, both bounds are `s.len()`.
pub open spec fn word_bounds(s: Seq<char>, k: nat) -> (int, int)
    decreases k,
{
    let from = if k == 0 {
        0
    } else {
        word_bounds(s, (k - 1) as nat).1
    };
    let start = seek(s, from, CharClass::AsciiWhitespace, false);
    (start, seek(s, start, CharClass::AsciiWhitespace, true))
}

/// Whether `s` holds more than `k` words.
pub open spec fn has_word(s: Seq<char>, k: nat) -> bool {
    word_bounds(s, k).0 < s.len()
}

/// The `k`-th word of `s`, empty where `s` has no such word.
pub open spec fn word(s: Seq<char>, k: nat) -> Seq<char> {
    s.subrange(word_bounds(s, k).0, word_bounds(s, k).1)
}

/// Where the search for the `k`-th word of `s` begins: at the start of `s`, or
/// at the end of the word before.
pub open spec fn word_search_start(s: Seq<char>, k: nat) -> int {
    if k == 0 {
        0
    } else {
        word_bounds(s, (k - 1) as nat).1
    }
}

/// Words are what their name says: the bounds lie inside `s`; only ASCII
/// whitespace separates a word from where its search began; a word that exists
/// is not empty, holds no ASCII whitespace and ends at whitespace or at the end
/// of `s`; and a `k`-th word exists only after a `k - 1`-th.
pub proof fn lemma_word(s: Seq<char>, k: nat)
    ensures
        0 <= word_search_start(s, k) <= word_bounds(s, k).0 <= word_bounds(s, k).1 <= s.len(),
        forall|j: int|
            word_search_start(s, k) <= j < word_bounds(s, k).0
                ==> CharClass::AsciiWhitespace.holds(#[trigger] s[j]),
        forall|j: int|
            word_bounds(s, k).0 <= j < word_bounds(s, k).1 ==> !CharClass::AsciiWhitespace.holds(
                #[trigger] s[j],
            ),
        word_bounds(s, k).1 < s.len() ==> CharClass::AsciiWhitespace.holds(
            s[word_bounds(s, k).1],
        ),
        has_word(s, k) ==> word(s, k).len() > 0,
        has_word(s, k) && k > 0 ==> has_word(s, (k - 1) as nat),
        !has_word(s, k) ==> word(s, k) == Seq::<char>::empty(),
    decreases k,
{
    if k > 0 {
        lemma_word(s, (k - 1) as nat);
    }
    let from = word_search_start(s, k);
    let start = seek(s, from, CharClass::AsciiWhitespace, false);
    lemma_seek(s, from, CharClass::AsciiWhitespace, false);
    lemma_seek(s, start, CharClass::AsciiWhitespace, true);
    if !has_word(s, k) {
        assert(word(s, k) =~= Seq::<char>::empty());
    }
}

/// The characters of a string, in order.
pub fn chars_of(s: &str) -> (chars: Vec<char>)
    ensures
        chars@ == s@,
{
    let mut chars: Vec<char> = Vec::new();
    for c in it: s.chars()
        invariant
            chars@ == it.seq().take(it.index() as int),
    {
        chars.push(c);
    }
    chars
}

/// Searches forward from `from` for the first character whose membership in
/// `class` equals `member`.
pub fn find(s: &Vec<char>, from: usize, class: CharClass, member: bool) -> (at: usize)
    requires
        from <= s@.len(),
    ensures
        at == seek(s@, from as int, class, member),
        from <= at <= s@.len(),
{
    let mut at: usize = from;
    while at < s.len() && class.contains(s[at]) != member
        invariant
            from <= at <= s@.len(),
            seek(s@, at as int, class, member) == seek(s@, from as int, class, member),
        decreases s@.len() - at,
    {
        at = at + 1;
    }
    at
}

/// Searches backward from `upto` for the last character whose membership in
/// `class` equals `member`, and returns the index just after it.
pub fn find_back(s: &Vec<char>, upto: usize, class: CharClass, member: bool) -> (end: usize)
    requires
        upto <= s@.len(),
    ensures
        end == seek_back(s@, upto as int, class, member),
        end <= upto,
{
    let mut end: usize = upto;
    while end > 0 && class.contains(s[end - 1]) != member
        invariant
            end <= upto <= s@.len(),
            seek_back(s@, end as int, class, member) == seek_back(s@, upto as int, class, member),
        decreases end,
    {
        end = end - 1;
    }
    end
}

/// Whether `s` begins with the characters of `prefix`.
pub fn starts_with(s: &Vec<char>, prefix: &Vec<char>) -> (yes: bool)
    ensures
        yes == prefix@.is_prefix_of(s@),
{
    if prefix.len() > s.len() {
        return false;
    }
    let mut i: usize = 0;
    while i < prefix.len()
        invariant
            i <= prefix@.len() <= s@.len(),
            forall|j: int| 0 <= j < i ==> s@[j] == prefix@[j],
        decreases prefix@.len() - i,
    {
        if s[i] != prefix[i] {
            return false;
        }
        i = i + 1;
    }
    assert(s@.subrange(0, prefix@.len() as int) =~= prefix@);
    true
}

/// Finds the next word of `s` at or after `from`: skips ASCII whitespace, then
/// runs to the next ASCII whitespace or to the end.
pub fn next_word(s: &Vec<char>, from: usize) -> (bounds: (usize, usize))
    requires
        from <= s@.len(),
    ensures
        bounds.0 == seek(s@, from as int, CharClass::AsciiWhitespace, false),
        bounds.1 == seek(s@, bounds.0 as int, CharClass::AsciiWhitespace, true),
        from <= bounds.0 <= bounds.1 <= s@.len(),
{
    let start = find(s, from, CharClass::AsciiWhitespace, false);
    let end = find(s, start, CharClass::AsciiWhitespace, true);
    (start, end)
}

/// Copies the characters `from..to` of `s` into a string of their own.
pub fn slice_of(s: &str, from: usize, to: usize) -> (piece: String)
    requires
        from <= to <= s@.len(),
    ensures
        piece@ == s@.subrange(from as int, to as int),
{
    s.substring_char(from, to).to_owned()
}

/// Removes leading and trailing whitespace.
pub fn trim(s: &str) -> (kept: String)
    ensures
        kept@ == trimmed(s@),
{
    let chars = chars_of(s);
    let start = find(&chars, 0, CharClass::Whitespace, false);
    let end = find_back(&chars, chars.len(), CharClass::Whitespace, false);
    if start < end {
        slice_of(s, start, end)
    } else {
        String::new()
    }
}

/// Whether two texts hold the same characters.
pub fn same_text(a: &str, b: &str) -> (same: bool)
    ensures
        same == (a@ == b@),
{
    let left = chars_of(a);
    let right = chars_of(b);
    if left.len() != right.len() {
        return false;
    }
    let same = starts_with(&left, &right);
    assert(right@.is_prefix_of(left@) ==> left@ =~= right@);
    same
}

} // verus!
