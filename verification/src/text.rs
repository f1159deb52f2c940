//! Text as sequences of characters: splitting, trimming, letter case, search
//! and decimal numbers.
use vstd::prelude::*;
use vstd::string::StringExecFns;

verus! {

/// Appends one character: `String::push` puts `c` behind the characters that
/// the string already holds.
pub assume_specification[ String::push ](s: &mut String, c: char)
    ensures
        final(s)@ == old(s)@.push(c),
;

/// The characters of a string, one by one.
pub fn chars_of(s: &str) -> (r: Vec<char>)
    ensures
        r@ == s@,
{
    let mut r: Vec<char> = Vec::new();
    for c in it: s.chars()
        invariant
            r@.len() == it.index(),
            r@ == it.seq().take(it.index() as int),
            it.seq() == s@,
    {
        r.push(c);
        assert(it.seq().take(it.index() + 1) =~= it.seq().take(it.index() as int).push(c));
    }
    assert(s@.take(s@.len() as int) =~= s@);
    r
}

/// The string of the characters `from..to`.
pub fn string_of(chars: &Vec<char>, from: usize, to: usize) -> (r: String)
    requires
        from <= to <= chars@.len(),
    ensures
        r@ == chars@.subrange(from as int, to as int),
{
    let mut r: String = String::new();
    let mut i: usize = from;
    while i < to
        invariant
            from <= i <= to <= chars@.len(),
            r@ == chars@.subrange(from as int, i as int),
        decreases to - i,
    {
        r.push(chars[i]);
        i = i + 1;
        assert(chars@.subrange(from as int, i as int) =~= chars@.subrange(
            from as int,
            i - 1,
        ).push(chars@[i - 1]));
    }
    r
}

/// What each string of a list holds.
pub open spec fn views(list: Seq<String>) -> Seq<Seq<char>> {
    Seq::new(list.len(), |i: int| list[i]@)
}

/// What a text holds, where there is one.
pub open spec fn view_of(text: Option<&str>) -> Option<Seq<char>> {
    match text {
        Some(t) => Some(t@),
        None => None,
    }
}

/// Where `c` first stands in `s`, or the length of `s` if it does not.
pub open spec fn find(s: Seq<char>, c: char) -> nat
    decreases s.len(),
{
    if s.len() == 0 || s[0] == c {
        0
    } else {
        1 + find(s.skip(1), c)
    }
}

/// The pieces of `s` between the separators; one piece where there is none.
pub open spec fn split(s: Seq<char>, sep: char) -> Seq<Seq<char>>
    decreases s.len(),
{
    if find(s, sep) >= s.len() {
        seq![s]
    } else {
        seq![s.take(find(s, sep) as int)] + split(s.skip(find(s, sep) as int + 1), sep)
    }
}

/// `find` is the first place of `c`.
pub proof fn find_is_first(s: Seq<char>, c: char)
    ensures
        0 <= find(s, c) <= s.len(),
        forall|k: int| 0 <= k < find(s, c) ==> s[k] != c,
        find(s, c) < s.len() ==> s[find(s, c) as int] == c,
    decreases s.len(),
{
    if s.len() != 0 && s[0] != c {
        find_is_first(s.skip(1), c);
        assert forall|k: int| 0 <= k < find(s, c) implies s[k] != c by {
            if k > 0 {
                assert(s.skip(1)[k - 1] == s[k]);
            }
        }
    }
}

/// The first place of `c` is the only place before which there is none.
pub proof fn find_is_unique(s: Seq<char>, c: char, at: int)
    requires
        0 <= at <= s.len(),
        forall|k: int| 0 <= k < at ==> s[k] != c,
        at < s.len() ==> s[at] == c,
    ensures
        find(s, c) == at,
{
    find_is_first(s, c);
}

/// Splits at every separator, as `str::split` does for a character.
pub fn split_at(s: &str, sep: char) -> (r: Vec<String>)
    ensures
        views(r@) == split(s@, sep),
{
    let chars = chars_of(s);
    let mut r: Vec<String> = Vec::new();
    let mut start: usize = 0;
    let mut i: usize = 0;
    assert(s@.skip(0) =~= s@);
    assert(views(r@) + split(s@.skip(0), sep) =~= split(s@, sep));
    while i < chars.len()
        invariant
            chars@ == s@,
            start <= i <= chars@.len(),
            forall|k: int| start <= k < i ==> s@[k] != sep,
            views(r@) + split(s@.skip(start as int), sep) == split(s@, sep),
        decreases chars@.len() - i,
    {
        if chars[i] == sep {
            let piece = string_of(&chars, start, i);
            proof {
                let rest = s@.skip(start as int);
                find_is_unique(rest, sep, i - start);
                assert(rest.take(i - start) =~= s@.subrange(start as int, i as int));
                assert(rest.skip(i - start + 1) =~= s@.skip(i + 1));
                assert(views(r@.push(piece)) =~= views(r@).push(piece@));
                assert(views(r@).push(piece@) + split(s@.skip(i + 1), sep) =~= views(r@) + (
                seq![piece@] + split(s@.skip(i + 1), sep)));
            }
            r.push(piece);
            start = i + 1;
        }
        i = i + 1;
    }
    let piece = string_of(&chars, start, i);
    proof {
        let rest = s@.skip(start as int);
        find_is_unique(rest, sep, rest.len() as int);
        assert(rest =~= piece@);
        assert(views(r@.push(piece)) =~= views(r@) + seq![rest]);
    }
    r.push(piece);
    r
}

/// A class of characters that trimming takes away.
#[derive(Clone, Copy, PartialEq, Eq, Structural)]
pub enum CharClass {
    /// Unicode white space.
    Whitespace,
    /// The double quote.
    Quote,
}

/// The characters with the Unicode property `White_Space`.
pub open spec fn is_whitespace(c: char) -> bool {
    ||| '\u{9}' <= c <= '\u{d}'
    ||| c == ' '
    ||| c == '\u{85}'
    ||| c == '\u{a0}'
    ||| c == '\u{1680}'
    ||| '\u{2000}' <= c <= '\u{200a}'
    ||| c == '\u{2028}'
    ||| c == '\u{2029}'
    ||| c == '\u{202f}'
    ||| c == '\u{205f}'
    ||| c == '\u{3000}'
}

impl CharClass {
    /// Whether the class holds `c`.
    pub open spec fn has(self, c: char) -> bool {
        match self {
            CharClass::Whitespace => is_whitespace(c),
            CharClass::Quote => c == '"',
        }
    }

    /// Whether the class holds `c`; for white space as `char::is_whitespace`.
    pub fn contains(self, c: char) -> (r: bool)
        ensures
            r == self.has(c),
    {
        match self {
            CharClass::Whitespace => {
                ('\u{9}' <= c && c <= '\u{d}') || c == ' ' || c == '\u{85}' || c == '\u{a0}' || c
                    == '\u{1680}' || ('\u{2000}' <= c && c <= '\u{200a}') || c == '\u{2028}' || c
                    == '\u{2029}' || c == '\u{202f}' || c == '\u{205f}' || c == '\u{3000}'
            },
            CharClass::Quote => c == '"',
        }
    }
}

/// `s` without the characters of `class` that it starts with.
pub open spec fn trim_start(s: Seq<char>, class: CharClass) -> Seq<char>
    decreases s.len(),
{
    if s.len() > 0 && class.has(s[0]) {
        trim_start(s.skip(1), class)
    } else {
        s
    }
}

/// `s` without the characters of `class` that it ends with.
pub open spec fn trim_end(s: Seq<char>, class: CharClass) -> Seq<char>
    decreases s.len(),
{
    if s.len() > 0 && class.has(s.last()) {
        trim_end(s.drop_last(), class)
    } else {
        s
    }
}

/// `s` without the characters of `class` at both ends.
pub open spec fn trim_class(s: Seq<char>, class: CharClass) -> Seq<char> {
    trim_end(trim_start(s, class), class)
}

/// `s` without white space at both ends.
pub open spec fn trim(s: Seq<char>) -> Seq<char> {
    trim_class(s, CharClass::Whitespace)
}

/// Trims both ends, as `str::trim` does for white space and
/// `str::trim_matches` for a character.
pub fn trimmed(s: &str, class: CharClass) -> (r: String)
    ensures
        r@ == trim_class(s@, class),
{
    let chars = chars_of(s);
    let mut from: usize = 0;
    assert(s@.skip(0) =~= s@);
    while from < chars.len() && class.contains(chars[from])
        invariant
            chars@ == s@,
            from <= chars@.len(),
            trim_start(s@.skip(from as int), class) == trim_start(s@, class),
        decreases chars@.len() - from,
    {
        assert(s@.skip(from as int).skip(1) =~= s@.skip(from + 1));
        from = from + 1;
    }
    let mut to: usize = chars.len();
    assert(s@.subrange(from as int, to as int) =~= s@.skip(from as int));
    while from < to && class.contains(chars[to - 1])
        invariant
            chars@ == s@,
            from <= to <= chars@.len(),
            trim_end(s@.subrange(from as int, to as int), class) == trim_class(s@, class),
        decreases to,
    {
        assert(s@.subrange(from as int, to as int).drop_last() =~= s@.subrange(
            from as int,
            to - 1,
        ));
        to = to - 1;
    }
    string_of(&chars, from, to)
}

/// The ASCII lower case of one character; others stay.
pub open spec fn lower_char(c: char) -> char {
    if 'A' <= c <= 'Z' {
        ((c as u8) + 32) as char
    } else {
        c
    }
}

/// The ASCII lower case of a text.
pub open spec fn lower(s: Seq<char>) -> Seq<char> {
    Seq::new(s.len(), |i: int| lower_char(s[i]))
}

/// The ASCII lower case of a text, as `str::to_ascii_lowercase`.
pub fn lowercase(s: &str) -> (r: String)
    ensures
        r@ == lower(s@),
{
    let chars = chars_of(s);
    let mut r: String = String::new();
    let mut i: usize = 0;
    while i < chars.len()
        invariant
            chars@ == s@,
            i <= chars@.len(),
            r@ == lower(s@).take(i as int),
        decreases chars@.len() - i,
    {
        let c = chars[i];
        if 'A' <= c && c <= 'Z' {
            r.push((c as u8 + 32) as char);
        } else {
            r.push(c);
        }
        i = i + 1;
        assert(lower(s@).take(i as int) =~= lower(s@).take(i - 1).push(lower_char(s@[i - 1])));
    }
    assert(lower(s@).take(i as int) =~= lower(s@));
    r
}

/// Whether two texts hold the same characters.
pub fn same_text(a: &str, b: &str) -> (r: bool)
    ensures
        r == (a@ == b@),
{
    a.to_owned() == b.to_owned()
}

/// Whether `needle` stands in `s` at `at`.
pub open spec fn stands_at(s: Seq<char>, needle: Seq<char>, at: int) -> bool {
    0 <= at && at + needle.len() <= s.len() && s.subrange(at, at + needle.len()) == needle
}

/// Whether `needle` stands somewhere in `s`.
pub open spec fn contains(s: Seq<char>, needle: Seq<char>) -> bool {
    exists|at: int| stands_at(s, needle, at)
}

/// Whether `s` starts with `prefix`.
pub open spec fn starts_with(s: Seq<char>, prefix: Seq<char>) -> bool {
    stands_at(s, prefix, 0)
}

fn stands_at_chars(s: &Vec<char>, needle: &Vec<char>, at: usize) -> (r: bool)
    ensures
        r == stands_at(s@, needle@, at as int),
{
    if at > s.len() || needle.len() > s.len() - at {
        return false;
    }
    let mut i: usize = 0;
    while i < needle.len()
        invariant
            at + needle@.len() <= s.len(),
            i <= needle@.len(),
            forall|k: int| 0 <= k < i ==> s@[at + k] == needle@[k],
        decreases needle@.len() - i,
    {
        if s[at + i] != needle[i] {
            assert(s@.subrange(at as int, at + needle@.len())[i as int] != needle@[i as int]);
            return false;
        }
        i = i + 1;
    }
    assert(s@.subrange(at as int, at + needle@.len()) =~= needle@);
    true
}

/// Whether `needle` stands somewhere in `s`, as `str::contains`.
pub fn has_text(s: &str, needle: &str) -> (r: bool)
    ensures
        r == contains(s@, needle@),
{
    let chars = chars_of(s);
    let wanted = chars_of(needle);
    let mut at: usize = 0;
    while at < chars.len()
        invariant
            chars@ == s@,
            wanted@ == needle@,
            at <= chars@.len(),
            forall|k: int| 0 <= k < at ==> !stands_at(s@, needle@, k),
        decreases chars@.len() - at,
    {
        if stands_at_chars(&chars, &wanted, at) {
            return true;
        }
        at = at + 1;
    }
    stands_at_chars(&chars, &wanted, at)
}

/// Whether `s` starts with `prefix`, as `str::starts_with`.
pub fn has_prefix(s: &str, prefix: &str) -> (r: bool)
    ensures
        r == starts_with(s@, prefix@),
{
    stands_at_chars(&chars_of(s), &chars_of(prefix), 0)
}

/// The texts of `list` in order, with `sep` between each two.
pub open spec fn join(list: Seq<Seq<char>>, sep: Seq<char>) -> Seq<char>
    decreases list.len(),
{
    if list.len() == 0 {
        Seq::empty()
    } else if list.len() == 1 {
        list[0]
    } else {
        join(list.drop_last(), sep) + sep + list.last()
    }
}

/// Joins texts, as `join` does for a list of strings.
pub fn joined(list: &Vec<String>, sep: &str) -> (r: String)
    ensures
        r@ == join(views(list@), sep@),
{
    let mut r: String = String::new();
    let mut i: usize = 0;
    while i < list.len()
        invariant
            i <= list@.len(),
            r@ == join(views(list@).take(i as int), sep@),
        decreases list@.len() - i,
    {
        if i != 0 {
            r.append(sep);
        }
        r.append(list[i].as_str());
        assert(views(list@).take(i + 1).drop_last() =~= views(list@).take(i as int));
        assert(r@ =~= join(views(list@).take(i + 1), sep@));
        i = i + 1;
    }
    assert(views(list@).take(i as int) =~= views(list@));
    r
}

/// Two texts with a separator between them split into the pieces of both.
pub proof fn split_of_concatenation(a: Seq<char>, b: Seq<char>, sep: char)
    ensures
        split(a + seq![sep] + b, sep) == split(a, sep) + split(b, sep),
    decreases a.len(),
{
    let whole = a + seq![sep] + b;
    find_is_first(a, sep);
    let at = find(a, sep) as int;
    find_is_unique(whole, sep, at);
    assert(whole.take(at) =~= a.take(at));
    if at < a.len() {
        let rest = a.skip(at + 1);
        split_of_concatenation(rest, b, sep);
        assert(whole.skip(at + 1) =~= rest + seq![sep] + b);
        assert(split(whole, sep) =~= split(a, sep) + split(b, sep));
    } else {
        assert(whole.take(at) =~= a);
        assert(whole.skip(at + 1) =~= b);
    }
}

/// A text without the separator is one piece.
pub proof fn split_without_separator(s: Seq<char>, sep: char)
    requires
        !s.contains(sep),
    ensures
        split(s, sep) == seq![s],
{
    find_is_first(s, sep);
    if find(s, sep) < s.len() {
        assert(s.contains(s[find(s, sep) as int]));
    }
}

/// A text whose ends are not of the class stays as it is.
pub proof fn trim_keeps(s: Seq<char>, class: CharClass)
    requires
        s.len() > 0 ==> !class.has(s[0]) && !class.has(s.last()),
    ensures
        trim_class(s, class) == s,
{
}

/// One character of the class before a text whose ends are not of it goes.
pub proof fn trim_drops_first(s: Seq<char>, class: CharClass, c: char)
    requires
        s.len() > 0,
        !class.has(s[0]) && !class.has(s.last()),
        class.has(c),
    ensures
        trim_class(seq![c] + s, class) == s,
{
    assert((seq![c] + s).skip(1) =~= s);
    assert(trim_start(s, class) == s);
    assert(trim_start(seq![c] + s, class) == s);
}

/// Lower case is its own lower case.
pub proof fn lower_is_idempotent(s: Seq<char>)
    ensures
        lower(lower(s)) == lower(s),
{
    assert(lower(lower(s)) =~= lower(s));
}

/// Letter case does not move a character that is no letter.
pub proof fn find_in_lower(s: Seq<char>, c: char)
    requires
        c < 'A',
    ensures
        find(lower(s), c) == find(s, c),
{
    find_is_first(s, c);
    find_is_unique(lower(s), c, find(s, c) as int);
}

/// Letter case does not move the pieces between separators that are no
/// letters.
pub proof fn split_of_lower(s: Seq<char>, sep: char)
    requires
        sep < 'A',
    ensures
        split(lower(s), sep) == Seq::new(split(s, sep).len(), |i: int| lower(split(s, sep)[i])),
    decreases s.len(),
{
    find_in_lower(s, sep);
    let at = find(s, sep) as int;
    let lowered = Seq::new(split(s, sep).len(), |i: int| lower(split(s, sep)[i]));
    if at < s.len() {
        let rest = s.skip(at + 1);
        split_of_lower(rest, sep);
        assert(lower(s).take(at) =~= lower(s.take(at)));
        assert(lower(s).skip(at + 1) =~= lower(rest));
        assert(split(lower(s), sep) =~= lowered);
    } else {
        assert(split(lower(s), sep) =~= lowered);
    }
}

/// Trimming and lower case do not meet.
pub proof fn trim_of_lower(s: Seq<char>, class: CharClass)
    ensures
        trim_class(lower(s), class) == lower(trim_class(s, class)),
{
    trim_start_of_lower(s, class);
    trim_end_of_lower(trim_start(s, class), class);
}

proof fn trim_start_of_lower(s: Seq<char>, class: CharClass)
    ensures
        trim_start(lower(s), class) == lower(trim_start(s, class)),
    decreases s.len(),
{
    if s.len() > 0 {
        assert(class.has(lower(s)[0]) == class.has(s[0]));
        if class.has(s[0]) {
            trim_start_of_lower(s.skip(1), class);
            assert(lower(s).skip(1) =~= lower(s.skip(1)));
        }
    }
}

proof fn trim_end_of_lower(s: Seq<char>, class: CharClass)
    ensures
        trim_end(lower(s), class) == lower(trim_end(s, class)),
    decreases s.len(),
{
    if s.len() > 0 {
        assert(class.has(lower(s).last()) == class.has(s.last()));
        if class.has(s.last()) {
            trim_end_of_lower(s.drop_last(), class);
            assert(lower(s).drop_last() =~= lower(s.drop_last()));
        }
    }
}

} // verus!
