//! Text as sequences of characters: the operations on strings that the rest of the crate is
//! written and specified with.
use crate::lists::texts;
use vstd::arithmetic::div_mod::lemma_mod_breakdown;
use vstd::prelude::*;

verus! {

broadcast use {crate::lists::lemma_texts_push, crate::lists::lemma_texts_add};

/// `String::push` appends the given character to the end of the string.
pub assume_specification[ std::string::String::push ](s: &mut std::string::String, c: char)
    ensures
        final(s)@ == old(s)@.push(c),
;

// --- characters ---

/// An ASCII digit.
pub open spec fn is_digit(c: char) -> bool {
    '0' <= c <= '9'
}

/// An ASCII letter or digit.
pub open spec fn is_alphanumeric(c: char) -> bool {
    is_digit(c) || 'a' <= c <= 'z' || 'A' <= c <= 'Z'
}

/// The ASCII upper case of a character; other characters stay as they are.
pub open spec fn upper(c: char) -> char {
    if 'a' <= c <= 'z' {
        (c as u8 - 32) as u8 as char
    } else {
        c
    }
}

/// The ASCII lower case of a character; other characters stay as they are.
pub open spec fn lower(c: char) -> char {
    if 'A' <= c <= 'Z' {
        (c as u8 + 32) as u8 as char
    } else {
        c
    }
}

/// The characters with the Unicode property `White_Space`.
pub open spec fn is_whitespace(c: char) -> bool {
    ||| '\u{9}' <= c <= '\u{d}'
    ||| c == ' '
    ||| c == '\u{85}'
    ||| c == '\u{a0}'
    ||| c == '\u{1680}'
    ||| '\u{2000}' <= c <= '\u{200a}'
    ||| c == '\u{2028}'
    ||| c == '\u{2029}'
    ||| c == '\u{202f}'
    ||| c == '\u{205f}'
    ||| c == '\u{3000}'
}

/// Whether `c` is an ASCII digit.
pub fn digit(c: char) -> (r: bool)
    ensures
        r == is_digit(c),
{
    '0' <= c && c <= '9'
}

/// Whether `c` is an ASCII letter or digit.
pub fn alphanumeric(c: char) -> (r: bool)
    ensures
        r == is_alphanumeric(c),
{
    digit(c) || ('a' <= c && c <= 'z') || ('A' <= c && c <= 'Z')
}

/// `c` in ASCII upper case.
pub fn to_upper(c: char) -> (r: char)
    ensures
        r == upper(c),
{
    if 'a' <= c && c <= 'z' {
        (c as u8 - 32) as char
    } else {
        c
    }
}

/// `c` in ASCII lower case.
pub fn to_lower(c: char) -> (r: char)
    ensures
        r == lower(c),
{
    if 'A' <= c && c <= 'Z' {
        (c as u8 + 32) as char
    } else {
        c
    }
}

/// Whether `c` is white space.
pub fn whitespace(c: char) -> (r: bool)
    ensures
        r == is_whitespace(c),
{
    ('\u{9}' <= c && c <= '\u{d}') || c == ' ' || c == '\u{85}' || c == '\u{a0}' || c == '\u{1680}'
        || ('\u{2000}' <= c && c <= '\u{200a}') || c == '\u{2028}' || c == '\u{2029}' || c
        == '\u{202f}' || c == '\u{205f}' || c == '\u{3000}'
}

// --- strings and character lists ---

/// The characters of `s`, in order.
pub fn to_chars(s: &str) -> (chars: Vec<char>)
    ensures
        chars@ == s@,
{
    let mut chars: Vec<char> = Vec::new();
    for c in it: s.chars()
        invariant
            chars@ == it.seq().take(it.index()),
            it.seq() == s@,
    {
        chars.push(c);
        assert(it.seq().take(it.index() + 1) =~= it.seq().take(it.index()).push(c));
    }
    assert(chars@ =~= s@);
    chars
}

/// The text of the characters from `start` up to `end`.
pub fn slice_text(chars: &Vec<char>, start: usize, end: usize) -> (s: String)
    requires
        start <= end <= chars@.len(),
    ensures
        s@ == chars@.subrange(start as int, end as int),
{
    let mut s = String::new();
    let mut i: usize = start;
    while i < end
        invariant
            start <= i <= end <= chars@.len(),
            s@ == chars@.subrange(start as int, i as int),
        decreases end - i,
    {
        s.push(chars[i]);
        i += 1;
        assert(chars@.subrange(start as int, i as int) =~= chars@.subrange(
            start as int,
            i - 1,
        ).push(chars@[i - 1]));
    }
    s
}

/// Whether two strings hold the same characters.
pub fn same(a: &str, b: &str) -> (r: bool)
    ensures
        r == (a@ == b@),
{
    let x = to_chars(a);
    let y = to_chars(b);
    if x.len() != y.len() {
        return false;
    }
    let mut i: usize = 0;
    while i < x.len()
        invariant
            i <= x@.len(),
            x@.len() == y@.len(),
            x@.take(i as int) == y@.take(i as int),
            x@ == a@,
            y@ == b@,
        decreases x@.len() - i,
    {
        if x[i] != y[i] {
            assert(a@[i as int] != b@[i as int]);
            return false;
        }
        assert(x@.take(i + 1) =~= x@.take(i as int).push(x@[i as int]));
        assert(y@.take(i + 1) =~= y@.take(i as int).push(y@[i as int]));
        i += 1;
    }
    assert(x@.take(i as int) =~= x@);
    assert(y@.take(i as int) =~= y@);
    true
}

/// The strings `a` and `b`, one after the other.
pub fn concat(a: &str, b: &str) -> (r: String)
    ensures
        r@ == a@ + b@,
{
    let mut r = String::new();
    r.append(a);
    r.append(b);
    assert(r@ =~= a@ + b@);
    r
}

/// The strings `a`, `b` and `c`, one after the other.
pub fn concat3(a: &str, b: &str, c: &str) -> (r: String)
    ensures
        r@ == a@ + b@ + c@,
{
    let mut r = concat(a, b);
    r.append(c);
    r
}

/// `key=value`.
pub open spec fn assignment(key: Seq<char>, value: Seq<char>) -> Seq<char> {
    key + "="@ + value
}

/// The text `key=value`.
pub fn assign(key: &str, value: &str) -> (r: String)
    ensures
        r@ == assignment(key@, value@),
{
    concat3(key, "=", value)
}

/// Whether `s` begins with `prefix`.
pub open spec fn has_prefix(s: Seq<char>, prefix: Seq<char>) -> bool {
    prefix.len() <= s.len() && s.take(prefix.len() as int) == prefix
}

/// Whether `s` ends with `suffix`.
pub open spec fn has_suffix(s: Seq<char>, suffix: Seq<char>) -> bool {
    suffix.len() <= s.len() && s.skip(s.len() - suffix.len()) == suffix
}

/// What follows `prefix` in `s`, where `s` begins with it.
pub fn strip_prefix(s: &str, prefix: &str) -> (r: Option<String>)
    ensures
        match r {
            Some(rest) => has_prefix(s@, prefix@) && rest@ == s@.skip(prefix@.len() as int),
            None => !has_prefix(s@, prefix@),
        },
{
    let x = to_chars(s);
    let p = to_chars(prefix);
    if p.len() > x.len() {
        return None;
    }
    let head = slice_text(&x, 0, p.len());
    if same(head.as_str(), prefix) {
        let rest = slice_text(&x, p.len(), x.len());
        Some(rest)
    } else {
        None
    }
}

/// Whether `s` ends with `suffix`.
pub fn ends_with(s: &str, suffix: &str) -> (r: bool)
    ensures
        r == has_suffix(s@, suffix@),
{
    let x = to_chars(s);
    let p = to_chars(suffix);
    if p.len() > x.len() {
        return false;
    }
    let tail = slice_text(&x, x.len() - p.len(), x.len());
    same(tail.as_str(), suffix)
}

/// The place of the first `c` in `chars`.
pub fn find(chars: &Vec<char>, c: char) -> (r: Option<usize>)
    ensures
        match r {
            Some(i) => chars@.index_of_first(c) == Some(i as int) && i < chars@.len(),
            None => chars@.index_of_first(c) is None,
        },
{
    proof {
        chars@.index_of_first_ensures(c);
    }
    let mut i: usize = 0;
    while i < chars.len()
        invariant
            i <= chars@.len(),
            forall|j: int| 0 <= j < i ==> chars@[j] != c,
        decreases chars@.len() - i,
    {
        if chars[i] == c {
            proof {
                chars@.index_of_first_ensures(c);
            }
            return Some(i);
        }
        i += 1;
    }
    None
}

/// The place of the last `c` in `chars`.
pub fn find_last(chars: &Vec<char>, c: char) -> (r: Option<usize>)
    ensures
        match r {
            Some(i) => chars@.index_of_last(c) == Some(i as int) && i < chars@.len(),
            None => chars@.index_of_last(c) is None,
        },
{
    proof {
        chars@.index_of_last_ensures(c);
    }
    let mut i: usize = chars.len();
    while i > 0
        invariant
            i <= chars@.len(),
            forall|j: int| i <= j < chars@.len() ==> chars@[j] != c,
        decreases i,
    {
        i -= 1;
        if chars[i] == c {
            proof {
                chars@.index_of_last_ensures(c);
            }
            return Some(i);
        }
    }
    None
}

/// Whether `c` occurs in `s`.
pub fn contains(s: &str, c: char) -> (r: bool)
    ensures
        r == s@.contains(c),
{
    let chars = to_chars(s);
    proof {
        chars@.index_of_first_ensures(c);
    }
    find(&chars, c).is_some()
}

/// The text before and after the first `c`.
pub open spec fn spec_split_once(s: Seq<char>, c: char) -> Option<(Seq<char>, Seq<char>)> {
    match s.index_of_first(c) {
        Some(i) => Some((s.take(i), s.skip(i + 1))),
        None => None,
    }
}

/// The text before and after the last `c`.
pub open spec fn spec_rsplit_once(s: Seq<char>, c: char) -> Option<(Seq<char>, Seq<char>)> {
    match s.index_of_last(c) {
        Some(i) => Some((s.take(i), s.skip(i + 1))),
        None => None,
    }
}

/// The contents of an optional pair of strings.
pub open spec fn opt_pair(o: Option<(String, String)>) -> Option<(Seq<char>, Seq<char>)> {
    match o {
        Some(p) => Some((p.0@, p.1@)),
        None => None,
    }
}

/// Splits `s` at the first `c`.
pub fn split_once(s: &str, c: char) -> (r: Option<(String, String)>)
    ensures
        opt_pair(r) == spec_split_once(s@, c),
{
    let chars = to_chars(s);
    match find(&chars, c) {
        Some(i) => {
            let head = slice_text(&chars, 0, i);
            let end = chars.len();
            let tail = slice_text(&chars, i + 1, end);
            assert(head@ =~= s@.take(i as int));
            assert(tail@ =~= s@.skip(i + 1));
            Some((head, tail))
        },
        None => None,
    }
}

/// Splits `s` at the last `c`.
pub fn rsplit_once(s: &str, c: char) -> (r: Option<(String, String)>)
    ensures
        opt_pair(r) == spec_rsplit_once(s@, c),
{
    let chars = to_chars(s);
    match find_last(&chars, c) {
        Some(i) => {
            let head = slice_text(&chars, 0, i);
            let end = chars.len();
            let tail = slice_text(&chars, i + 1, end);
            assert(head@ =~= s@.take(i as int));
            assert(tail@ =~= s@.skip(i + 1));
            Some((head, tail))
        },
        None => None,
    }
}

/// The pieces of `s` between the occurrences of `c`; there is always at least one.
pub open spec fn pieces(s: Seq<char>, c: char) -> Seq<Seq<char>>
    decreases s.len(),
{
    if s.len() == 0 {
        seq![seq![]]
    } else if s.last() == c {
        pieces(s.drop_last(), c).push(seq![])
    } else {
        let before = pieces(s.drop_last(), c);
        before.drop_last().push(before.last().push(s.last()))
    }
}

/// Splits `s` at every `c`.
pub fn split(s: &str, c: char) -> (r: Vec<String>)
    ensures
        texts(r@) == pieces(s@, c),
        r@.len() >= 1,
{
    let chars = to_chars(s);
    let mut done: Vec<String> = Vec::new();
    let mut current = String::new();
    let mut i: usize = 0;
    assert(texts(done@).push(current@) =~= seq![seq![]]);
    while i < chars.len()
        invariant
            i <= chars@.len(),
            chars@ == s@,
            pieces(s@.take(i as int), c) == texts(done@).push(current@),
        decreases chars@.len() - i,
    {
        let ghost before = texts(done@).push(current@);
        assert(s@.take(i + 1).drop_last() =~= s@.take(i as int));
        if chars[i] == c {
            done.push(current);
            current = String::new();
            assert(texts(done@).push(current@) =~= before.push(seq![]));
        } else {
            current.push(chars[i]);
            assert(before.drop_last() =~= texts(done@));
            assert(texts(done@).push(current@) =~= before.drop_last().push(
                before.last().push(chars@[i as int]),
            ));
        }
        i += 1;
    }
    assert(s@.take(i as int) =~= s@);
    done.push(current);
    done
}

/// The texts, one after the other, with `separator` between neighbours.
pub open spec fn joined(parts: Seq<Seq<char>>, separator: Seq<char>) -> Seq<char>
    decreases parts.len(),
{
    if parts.len() == 0 {
        seq![]
    } else if parts.len() == 1 {
        parts[0]
    } else {
        joined(parts.drop_last(), separator) + separator + parts.last()
    }
}

/// Joins `parts` with `separator` between neighbours.
pub fn join(parts: &Vec<String>, separator: &str) -> (r: String)
    ensures
        r@ == joined(texts(parts@), separator@),
{
    let mut r = String::new();
    let mut i: usize = 0;
    assert(texts(parts@).take(0) =~= seq![]);
    while i < parts.len()
        invariant
            i <= parts@.len(),
            r@ == joined(texts(parts@).take(i as int), separator@),
        decreases parts@.len() - i,
    {
        if i > 0 {
            r.append(separator);
        }
        let ghost before = r@;
        r.append(parts[i].as_str());
        assert(texts(parts@).take(i + 1).drop_last() =~= texts(parts@).take(i as int));
        if i == 0 {
            assert(before + parts@[i as int]@ =~= parts@[i as int]@);
        }
        i += 1;
    }
    assert(texts(parts@).take(i as int) =~= texts(parts@));
    r
}

/// Every `c` of `s` replaced by `with`.
pub open spec fn replaced(s: Seq<char>, c: char, with: Seq<char>) -> Seq<char>
    decreases s.len(),
{
    if s.len() == 0 {
        seq![]
    } else {
        replaced(s.drop_last(), c, with) + if s.last() == c {
            with
        } else {
            seq![s.last()]
        }
    }
}

/// Replaces every `c` in `s` by `with`.
pub fn replace(s: &str, c: char, with: &str) -> (r: String)
    ensures
        r@ == replaced(s@, c, with@),
{
    let chars = to_chars(s);
    let mut r = String::new();
    let mut i: usize = 0;
    while i < chars.len()
        invariant
            i <= chars@.len(),
            chars@ == s@,
            r@ == replaced(s@.take(i as int), c, with@),
        decreases chars@.len() - i,
    {
        let ghost before = r@;
        assert(s@.take(i + 1).drop_last() =~= s@.take(i as int));
        if chars[i] == c {
            r.append(with);
        } else {
            r.push(chars[i]);
            assert(r@ =~= before + seq![chars@[i as int]]);
        }
        i += 1;
    }
    assert(s@.take(i as int) =~= s@);
    r
}

// --- trimming ---

/// A set of characters to trim.
#[derive(Clone, Copy)]
pub enum CharClass {
    /// White space.
    Whitespace,
    /// The double quote.
    Quote,
    /// `-`, `.` and `_`.
    Punctuation,
    /// ASCII digits and `_`.
    DigitOrUnderscore,
}

impl CharClass {
    /// Whether the class holds `c`.
    pub open spec fn has_char(self, c: char) -> bool {
        match self {
            CharClass::Whitespace => is_whitespace(c),
            CharClass::Quote => c == '"',
            CharClass::Punctuation => c == '-' || c == '.' || c == '_',
            CharClass::DigitOrUnderscore => is_digit(c) || c == '_',
        }
    }

    fn test(self, c: char) -> (r: bool)
        ensures
            r == self.has_char(c),
    {
        match self {
            CharClass::Whitespace => whitespace(c),
            CharClass::Quote => c == '"',
            CharClass::Punctuation => c == '-' || c == '.' || c == '_',
            CharClass::DigitOrUnderscore => digit(c) || c == '_',
        }
    }
}

/// `s` without the leading characters of `class`.
pub open spec fn trimmed_start(s: Seq<char>, class: CharClass) -> Seq<char>
    decreases s.len(),
{
    if s.len() > 0 && class.has_char(s.first()) {
        trimmed_start(s.drop_first(), class)
    } else {
        s
    }
}

/// `s` without the trailing characters of `class`.
pub open spec fn trimmed_end(s: Seq<char>, class: CharClass) -> Seq<char>
    decreases s.len(),
{
    if s.len() > 0 && class.has_char(s.last()) {
        trimmed_end(s.drop_last(), class)
    } else {
        s
    }
}

/// `s` without the leading and trailing characters of `class`.
pub open spec fn trimmed(s: Seq<char>, class: CharClass) -> Seq<char> {
    trimmed_end(trimmed_start(s, class), class)
}

/// Drops the leading characters of `class`.
pub fn trim_start(s: &str, class: CharClass) -> (r: String)
    ensures
        r@ == trimmed_start(s@, class),
{
    let chars = to_chars(s);
    let mut i: usize = 0;
    assert(s@.skip(0) =~= s@);
    while i < chars.len() && class.test(chars[i])
        invariant
            i <= chars@.len(),
            chars@ == s@,
            trimmed_start(s@, class) == trimmed_start(s@.skip(i as int), class),
        decreases chars@.len() - i,
    {
        assert(s@.skip(i as int).drop_first() =~= s@.skip(i + 1));
        i += 1;
    }
    let r = slice_text(&chars, i, chars.len());
    assert(r@ =~= s@.skip(i as int));
    r
}

/// Drops the trailing characters of `class`.
pub fn trim_end(s: &str, class: CharClass) -> (r: String)
    ensures
        r@ == trimmed_end(s@, class),
{
    let chars = to_chars(s);
    let mut i: usize = chars.len();
    assert(s@.take(s@.len() as int) =~= s@);
    while i > 0 && class.test(chars[i - 1])
        invariant
            i <= chars@.len(),
            chars@ == s@,
            trimmed_end(s@, class) == trimmed_end(s@.take(i as int), class),
        decreases i,
    {
        assert(s@.take(i as int).drop_last() =~= s@.take(i - 1));
        i -= 1;
    }
    let r = slice_text(&chars, 0, i);
    assert(r@ =~= s@.take(i as int));
    r
}

/// Drops the leading and trailing characters of `class`.
pub fn trim(s: &str, class: CharClass) -> (r: String)
    ensures
        r@ == trimmed(s@, class),
{
    let start = trim_start(s, class);
    trim_end(start.as_str(), class)
}

// --- numbers ---

/// The character of a digit below ten.
pub open spec fn digit_char(d: nat) -> char {
    (48 + d) as char
}

/// A number in decimal.
pub open spec fn decimal(n: nat) -> Seq<char>
    decreases n,
{
    if n < 10 {
        seq![digit_char(n)]
    } else {
        decimal(n / 10).push(digit_char(n % 10))
    }
}

/// `n` in decimal.
pub fn decimal_text(n: u64) -> (r: String)
    ensures
        r@ == decimal(n as nat),
    decreases n,
{
    let mut r = if n < 10 {
        String::new()
    } else {
        decimal_text(n / 10)
    };
    let c = (48 + (n % 10) as u8) as char;
    let ghost before = r@;
    r.push(c);
    assert(n < 10 ==> before.push(c) =~= seq![digit_char(n as nat)]);
    r
}

/// The character of a hexadecimal digit; letters are upper case where `capital` holds.
pub open spec fn hex_char(d: int, capital: bool) -> char {
    if d < 10 {
        (48 + d) as char
    } else if capital {
        (55 + d) as char
    } else {
        (87 + d) as char
    }
}

/// The hexadecimal digit `d`.
pub fn hex_digit(d: u8, capital: bool) -> (r: char)
    requires
        d < 16,
    ensures
        r == hex_char(d as int, capital),
{
    if d < 10 {
        (48 + d) as char
    } else if capital {
        (55 + d) as char
    } else {
        (87 + d) as char
    }
}

/// The last `width` hexadecimal digits of `n`, in lower case.
pub open spec fn hex(n: nat, width: nat) -> Seq<char>
    decreases width,
{
    if width == 0 {
        seq![]
    } else {
        hex(n / 16, (width - 1) as nat).push(hex_char((n % 16) as int, false))
    }
}

/// The last `width` hexadecimal digits of `n`, in lower case.
pub fn hex_text(n: u64, width: usize) -> (r: String)
    ensures
        r@ == hex(n as nat, width as nat),
    decreases width,
{
    if width == 0 {
        String::new()
    } else {
        let mut r = hex_text(n / 16, width - 1);
        r.push(hex_digit((n % 16) as u8, false));
        r
    }
}

// --- laws ---

/// Dropping leading characters leaves an end of the text, which does not begin with such a
/// character.
pub proof fn law_trimmed_start(s: Seq<char>, class: CharClass)
    ensures
        ({
            let kept = trimmed_start(s, class);
            &&& kept.len() <= s.len()
            &&& kept == s.skip(s.len() - kept.len())
            &&& kept.len() > 0 ==> !class.has_char(kept[0])
            &&& forall|i: int| 0 <= i < s.len() - kept.len() ==> class.has_char(#[trigger] s[i])
        }),
    decreases s.len(),
{
    let kept = trimmed_start(s, class);
    if s.len() > 0 && class.has_char(s.first()) {
        let rest = s.drop_first();
        law_trimmed_start(rest, class);
        assert(kept =~= s.skip(s.len() - kept.len()));
        assert forall|i: int| 0 <= i < s.len() - kept.len() implies class.has_char(
            #[trigger] s[i],
        ) by {
            if i > 0 {
                assert(s[i] == rest[i - 1]);
            }
        }
    } else {
        assert(kept =~= s.skip(0));
    }
}

/// Dropping trailing characters leaves a beginning of the text, which does not end with such a
/// character.
pub proof fn law_trimmed_end(s: Seq<char>, class: CharClass)
    ensures
        ({
            let kept = trimmed_end(s, class);
            &&& kept.len() <= s.len()
            &&& kept == s.take(kept.len() as int)
            &&& kept.len() > 0 ==> !class.has_char(kept.last())
            &&& forall|i: int| kept.len() <= i < s.len() ==> class.has_char(#[trigger] s[i])
        }),
    decreases s.len(),
{
    let kept = trimmed_end(s, class);
    if s.len() > 0 && class.has_char(s.last()) {
        let rest = s.drop_last();
        law_trimmed_end(rest, class);
        assert(kept =~= s.take(kept.len() as int));
        assert forall|i: int| kept.len() <= i < s.len() implies class.has_char(
            #[trigger] s[i],
        ) by {
            if i < rest.len() {
                assert(s[i] == rest[i]);
            }
        }
    } else {
        assert(kept =~= s.take(s.len() as int));
    }
}

/// Replacing a character in a text replaces it in both parts of the text.
pub proof fn law_replaced_add(a: Seq<char>, b: Seq<char>, c: char, with: Seq<char>)
    ensures
        replaced(a + b, c, with) == replaced(a, c, with) + replaced(b, c, with),
    decreases b.len(),
{
    if b.len() == 0 {
        assert(a + b =~= a);
        assert(replaced(a, c, with) + replaced(b, c, with) =~= replaced(a, c, with));
    } else {
        assert((a + b).drop_last() =~= a + b.drop_last());
        law_replaced_add(a, b.drop_last(), c, with);
        assert(replaced(a + b, c, with) =~= replaced(a, c, with) + replaced(b, c, with));
    }
}

/// A text without the character stays as it is.
pub proof fn law_replaced_nothing(s: Seq<char>, c: char, with: Seq<char>)
    requires
        !s.contains(c),
    ensures
        replaced(s, c, with) == s,
    decreases s.len(),
{
    if s.len() > 0 {
        assert(s.contains(s.last()));
        assert forall|i: int| 0 <= i < s.drop_last().len() implies s.drop_last()[i] != c by {
            assert(s.contains(s[i]));
        }
        law_replaced_nothing(s.drop_last(), c, with);
        assert(replaced(s, c, with) =~= s);
    }
}

/// One occurrence of the character is replaced by the given text.
pub proof fn law_replaced_one(c: char, with: Seq<char>)
    ensures
        replaced(seq![c], c, with) == with,
{
    assert(seq![c].drop_last() =~= seq![]);
    assert(replaced(seq![c].drop_last(), c, with) =~= seq![]);
    assert(replaced(seq![c], c, with) =~= with);
}

/// Trimming takes away what stands before and after, and nothing of what stands between.
pub proof fn law_trimmed(front: Seq<char>, kept: Seq<char>, back: Seq<char>, class: CharClass)
    requires
        forall|i: int| 0 <= i < front.len() ==> class.has_char(#[trigger] front[i]),
        forall|i: int| 0 <= i < back.len() ==> class.has_char(#[trigger] back[i]),
        kept.len() > 0 ==> !class.has_char(kept[0]) && !class.has_char(kept.last()),
    ensures
        trimmed(front + kept + back, class) == kept,
{
    let s = front + kept + back;
    let start = trimmed_start(s, class);
    law_trimmed_start(s, class);
    law_trimmed_end(start, class);
    let end = trimmed_end(start, class);
    if kept.len() > 0 {
        let from = s.len() - start.len();
        assert(s[front.len() as int] == kept[0]);
        assert(from == front.len()) by {
            if from < front.len() {
                assert(start[0] == s[from]);
                assert(s[from] == front[from]);
            }
        }
        assert(start =~= kept + back);
        assert(start[kept.len() - 1] == kept.last());
        if end.len() > kept.len() {
            assert(end.last() == start[end.len() - 1]);
            assert(start[end.len() - 1] == back[end.len() - 1 - kept.len()]);
        }
        assert(end =~= kept);
    } else {
        assert forall|i: int| 0 <= i < s.len() implies class.has_char(#[trigger] s[i]) by {
            if i < front.len() {
                assert(s[i] == front[i]);
            } else {
                assert(s[i] == back[i - front.len()]);
            }
        }
        if start.len() > 0 {
            assert(start[0] == s[s.len() - start.len()]);
        }
        assert(end =~= kept);
    }
}

/// A text is split at the first place of the character, which is left out.
pub proof fn law_split_once(a: Seq<char>, c: char, b: Seq<char>)
    requires
        !a.contains(c),
    ensures
        spec_split_once(a + seq![c] + b, c) == Some((a, b)),
        spec_split_once(a, c) is None,
{
    let s = a + seq![c] + b;
    a.index_of_first_ensures(c);
    s.index_of_first_ensures(c);
    assert(s[a.len() as int] == c);
    let first = s.index_of_first(c)->0;
    if first < a.len() {
        assert(s[first] == a[first]);
    }
    assert(s.take(a.len() as int) =~= a);
    assert(s.skip(a.len() as int + 1) =~= b);
}

/// A text is split at the last place of the character, which is left out.
pub proof fn law_rsplit_once(a: Seq<char>, c: char, b: Seq<char>)
    requires
        !b.contains(c),
    ensures
        spec_rsplit_once(a + seq![c] + b, c) == Some((a, b)),
        spec_rsplit_once(b, c) is None,
{
    let s = a + seq![c] + b;
    b.index_of_last_ensures(c);
    s.index_of_last_ensures(c);
    assert(s[a.len() as int] == c);
    let last = s.index_of_last(c)->0;
    if last > a.len() {
        assert(s[last] == b[last - a.len() - 1]);
    }
    assert(s.take(a.len() as int) =~= a);
    assert(s.skip(a.len() as int + 1) =~= b);
}

/// A text without the character is one piece.
pub proof fn law_one_piece(s: Seq<char>, c: char)
    requires
        !s.contains(c),
    ensures
        pieces(s, c) == seq![s],
    decreases s.len(),
{
    if s.len() > 0 {
        assert(s.contains(s.last()));
        assert forall|i: int| 0 <= i < s.drop_last().len() implies s.drop_last()[i] != c by {
            assert(s.contains(s[i]));
        }
        law_one_piece(s.drop_last(), c);
        assert(s.drop_last().push(s.last()) =~= s);
    } else {
        assert(s =~= seq![]);
    }
    assert(pieces(s, c) =~= seq![s]);
}

/// What stands before the first place of the character is the first piece; the others are those
/// of the rest.
pub proof fn law_first_piece(a: Seq<char>, c: char, b: Seq<char>)
    requires
        !a.contains(c),
    ensures
        pieces(a + seq![c] + b, c) == seq![a] + pieces(b, c),
    decreases b.len(),
{
    let s = a + seq![c] + b;
    if b.len() == 0 {
        law_one_piece(a, c);
        assert(s.drop_last() =~= a);
        assert(pieces(s, c) =~= seq![a] + pieces(b, c));
    } else {
        assert(s.drop_last() =~= a + seq![c] + b.drop_last());
        law_first_piece(a, c, b.drop_last());
        law_join_pieces(b.drop_last(), c);
        let before = pieces(b.drop_last(), c);
        assert((seq![a] + before).drop_last() =~= seq![a] + before.drop_last());
        assert(pieces(s, c) =~= seq![a] + pieces(b, c));
    }
}

/// The pieces of a text, put together again, are the text.
pub proof fn law_join_pieces(s: Seq<char>, c: char)
    ensures
        pieces(s, c).len() > 0,
        joined(pieces(s, c), seq![c]) == s,
    decreases s.len(),
{
    if s.len() > 0 {
        law_join_pieces(s.drop_last(), c);
        let before = pieces(s.drop_last(), c);
        let now = pieces(s, c);
        assert(s =~= s.drop_last().push(s.last()));
        if s.last() == c {
            assert(now.drop_last() =~= before);
            assert(joined(now, seq![c]) == joined(before, seq![c]) + seq![c] + now.last());
        } else if before.len() == 1 {
            assert(joined(before, seq![c]) == before.last());
            assert(now =~= seq![before.last().push(s.last())]);
            assert(joined(now, seq![c]) == now[0]);
        } else {
            assert(now.drop_last() =~= before.drop_last());
            assert(joined(before, seq![c]) == joined(before.drop_last(), seq![c]) + seq![c]
                + before.last());
            assert(joined(now, seq![c]) == joined(now.drop_last(), seq![c]) + seq![c]
                + now.last());
        }
        assert(joined(now, seq![c]) =~= s);
    } else {
        assert(joined(pieces(s, c), seq![c]) =~= s);
    }
}

/// Parts that are put together with a character that none of them holds are the pieces of the
/// whole.
pub proof fn law_pieces_of_joined(parts: Seq<Seq<char>>, c: char)
    requires
        parts.len() > 0,
        forall|i: int| 0 <= i < parts.len() ==> !(#[trigger] parts[i]).contains(c),
    ensures
        pieces(joined(parts, seq![c]), c) == parts,
    decreases parts.len(),
{
    if parts.len() == 1 {
        law_one_piece(parts[0], c);
        assert(pieces(parts[0], c) =~= parts);
    } else {
        let rest = parts.drop_first();
        assert forall|i: int| 0 <= i < rest.len() implies !(#[trigger] rest[i]).contains(c) by {
            assert(rest[i] == parts[i + 1]);
        }
        law_pieces_of_joined(rest, c);
        lemma_joined_first(parts, seq![c]);
        assert(!parts[0].contains(c));
        law_first_piece(parts[0], c, joined(rest, seq![c]));
        assert(seq![parts[0]] + rest =~= parts);
    }
}

proof fn lemma_joined_first(parts: Seq<Seq<char>>, separator: Seq<char>)
    requires
        parts.len() > 1,
    ensures
        joined(parts, separator) == parts[0] + separator + joined(parts.drop_first(), separator),
    decreases parts.len(),
{
    let rest = parts.drop_first();
    if parts.len() == 2 {
        assert(parts.drop_last() =~= seq![parts[0]]);
        assert(rest =~= seq![parts[1]]);
        assert(joined(parts.drop_last(), separator) == parts[0]);
    } else {
        lemma_joined_first(parts.drop_last(), separator);
        assert(parts.drop_last().drop_first() =~= rest.drop_last());
    }
    assert(joined(parts, separator) =~= parts[0] + separator + joined(rest, separator));
}

/// The number that a text of decimal digits stands for.
pub open spec fn decimal_value(s: Seq<char>) -> int
    decreases s.len(),
{
    if s.len() == 0 {
        0
    } else {
        10 * decimal_value(s.drop_last()) + (s.last() as int - '0' as int)
    }
}

/// A number in decimal is made of digits, begins with zero only where it is zero, and stands for
/// the number.
pub proof fn law_decimal(n: nat)
    ensures
        decimal(n).len() > 0,
        forall|i: int| 0 <= i < decimal(n).len() ==> is_digit(#[trigger] decimal(n)[i]),
        decimal(n)[0] == '0' ==> n == 0,
        decimal_value(decimal(n)) == n,
    decreases n,
{
    if n >= 10 {
        law_decimal(n / 10);
        assert(decimal(n).drop_last() =~= decimal(n / 10));
    } else {
        assert(decimal(n).drop_last() =~= seq![]);
        assert(decimal_value(decimal(n).drop_last()) == 0);
    }
}

/// The number that a text of hexadecimal digits in lower case stands for.
pub open spec fn hex_number(s: Seq<char>) -> int
    decreases s.len(),
{
    if s.len() == 0 {
        0
    } else {
        16 * hex_number(s.drop_last()) + (if is_digit(s.last()) {
            s.last() as int - '0' as int
        } else {
            s.last() as int - 'a' as int + 10
        })
    }
}

/// Sixteen to the power of `width`.
pub open spec fn sixteen_to_the(width: nat) -> nat
    decreases width,
{
    if width == 0 {
        1
    } else {
        16 * sixteen_to_the((width - 1) as nat)
    }
}

/// The last digits of a number in hexadecimal are as many as asked for, and stand for the number
/// but for a multiple of the corresponding power of sixteen.
pub proof fn law_hex(n: nat, width: nat)
    ensures
        hex(n, width).len() == width,
        hex_number(hex(n, width)) == n % sixteen_to_the(width),
        sixteen_to_the(width) > 0,
    decreases width,
{
    if width == 0 {
        assert(n % 1 == 0);
    } else {
        let fewer = (width - 1) as nat;
        law_hex(n / 16, fewer);
        assert(hex(n, width).drop_last() =~= hex(n / 16, fewer));
        lemma_mod_breakdown(n as int, 16, sixteen_to_the(fewer) as int);
    }
}

/// What begins with a text is that text and something behind it; what ends with a text is that
/// text and something before it.
pub proof fn law_prefix_and_suffix(s: Seq<char>, part: Seq<char>)
    ensures
        has_prefix(part + s, part),
        has_suffix(s + part, part),
        has_prefix(s, part) ==> s == part + s.skip(part.len() as int),
        has_suffix(s, part) ==> s == s.take(s.len() - part.len()) + part,
{
    assert((part + s).take(part.len() as int) =~= part);
    assert((s + part).skip(s.len() as int) =~= part);
    if has_prefix(s, part) {
        assert(s =~= s.take(part.len() as int) + s.skip(part.len() as int));
    }
    if has_suffix(s, part) {
        assert(s =~= s.take(s.len() - part.len()) + s.skip(s.len() - part.len()));
    }
}

/// The two cases of a letter stand for each other, at the same place of the alphabet; all else is
/// the same in both.
pub proof fn law_letter_case(c: char)
    ensures
        'a' <= c <= 'z' ==> upper(c) as int - 'A' as int == c as int - 'a' as int && lower(upper(c))
            == c && lower(c) == c,
        'A' <= c <= 'Z' ==> lower(c) as int - 'a' as int == c as int - 'A' as int && upper(lower(c))
            == c && upper(c) == c,
        !('a' <= c <= 'z') && !('A' <= c <= 'Z') ==> upper(c) == c && lower(c) == c,
{
}

/// Where a text is made of two with the separator between them, so are its pieces.
pub proof fn law_pieces_add(a: Seq<char>, c: char, b: Seq<char>)
    ensures
        pieces(a + seq![c] + b, c) == pieces(a, c) + pieces(b, c),
    decreases b.len(),
{
    let s = a + seq![c] + b;
    if b.len() == 0 {
        assert(s.drop_last() =~= a);
        assert(pieces(s, c) =~= pieces(a, c) + pieces(b, c));
    } else {
        assert(s.drop_last() =~= a + seq![c] + b.drop_last());
        law_pieces_add(a, c, b.drop_last());
        law_join_pieces(b.drop_last(), c);
        assert(s.last() == b.last());
        assert(pieces(s, c) =~= pieces(a, c) + pieces(b, c));
    }
}

} // verus!
