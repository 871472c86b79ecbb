//! The two patterns that are looked for in messages, and the search for them.

use regex::Regex;
use vstd::prelude::*;

verus! {

/// A shared result: the grid, the tries and the time.
pub const SHARE_PATTERN: &'static str =
    r"SUTOM #(?P<id>\d+) (?P<score>\d)/6 (?:(?P<hours>\d+)h)?(?P<minutes>[0-5]\d):(?P<seconds>[0-5]\d)";

/// A request for the scores of a grid, or of today's where no grid is named.
pub const REQUEST_PATTERN: &'static str = r"!scores?(?:\s*#?\s*(?P<grid_id>\d+))?";

/// What a search finds: nothing, or the text of each capture group in the order of the opening
/// parentheses, the whole match first, with `None` for a group that took no part in the match.
pub type Groups = Option<Seq<Option<Seq<char>>>>;

/// What a search of `regex` finds, by the pattern and the text that is searched.
pub uninterp spec fn regex_captures(pattern: Seq<char>, text: Seq<char>) -> Groups;

pub open spec fn group_text(group: Option<String>) -> Option<Seq<char>> {
    match group {
        Some(text) => Some(text@),
        None => None,
    }
}

/// The texts of captured groups.
pub open spec fn groups_view(groups: Option<Vec<Option<String>>>) -> Groups {
    match groups {
        Some(found) => Some(found@.map_values(|g: Option<String>| group_text(g))),
        None => None,
    }
}

/// The ten characters from `zero` on.
pub open spec fn is_ten(c: char, zero: int) -> bool {
    zero <= c as int && (c as int) < zero + 10
}

/// The class `\d` of a pattern: the decimal digits of all scripts, ten from each zero on.
#[verifier::opaque]
pub open spec fn is_decimal(c: char) -> bool {
    ||| is_ten(c, 0x30) || is_ten(c, 0x660) || is_ten(c, 0x6F0) || is_ten(c, 0x7C0)
    ||| is_ten(c, 0x966) || is_ten(c, 0x9E6) || is_ten(c, 0xA66) || is_ten(c, 0xAE6)
    ||| is_ten(c, 0xB66) || is_ten(c, 0xBE6) || is_ten(c, 0xC66) || is_ten(c, 0xCE6)
    ||| is_ten(c, 0xD66) || is_ten(c, 0xDE6) || is_ten(c, 0xE50) || is_ten(c, 0xED0)
    ||| is_ten(c, 0xF20) || is_ten(c, 0x1040) || is_ten(c, 0x1090) || is_ten(c, 0x17E0)
    ||| is_ten(c, 0x1810) || is_ten(c, 0x1946) || is_ten(c, 0x19D0) || is_ten(c, 0x1A80)
    ||| is_ten(c, 0x1A90) || is_ten(c, 0x1B50) || is_ten(c, 0x1BB0) || is_ten(c, 0x1C40)
    ||| is_ten(c, 0x1C50) || is_ten(c, 0xA620) || is_ten(c, 0xA8D0) || is_ten(c, 0xA900)
    ||| is_ten(c, 0xA9D0) || is_ten(c, 0xA9F0) || is_ten(c, 0xAA50) || is_ten(c, 0xABF0)
    ||| is_ten(c, 0xFF10) || is_ten(c, 0x104A0) || is_ten(c, 0x10D30) || is_ten(c, 0x10D40)
    ||| is_ten(c, 0x11066) || is_ten(c, 0x110F0) || is_ten(c, 0x11136) || is_ten(c, 0x111D0)
    ||| is_ten(c, 0x112F0) || is_ten(c, 0x11450) || is_ten(c, 0x114D0) || is_ten(c, 0x11650)
    ||| is_ten(c, 0x116C0) || is_ten(c, 0x116D0) || is_ten(c, 0x116DA) || is_ten(c, 0x11730)
    ||| is_ten(c, 0x118E0) || is_ten(c, 0x11950) || is_ten(c, 0x11BF0) || is_ten(c, 0x11C50)
    ||| is_ten(c, 0x11D50) || is_ten(c, 0x11DA0) || is_ten(c, 0x11F50) || is_ten(c, 0x16130)
    ||| is_ten(c, 0x16A60) || is_ten(c, 0x16AC0) || is_ten(c, 0x16B50) || is_ten(c, 0x16D70)
    ||| is_ten(c, 0x1CCF0) || is_ten(c, 0x1D7CE) || is_ten(c, 0x1D7D8) || is_ten(c, 0x1D7E2)
    ||| is_ten(c, 0x1D7EC) || is_ten(c, 0x1D7F6) || is_ten(c, 0x1E140) || is_ten(c, 0x1E2F0)
    ||| is_ten(c, 0x1E4F0) || is_ten(c, 0x1E5F1) || is_ten(c, 0x1E950) || is_ten(c, 0x1FBF0)
}

/// The class `\s` of a pattern: the blanks of all scripts.
pub open spec fn is_space(c: char) -> bool {
    ||| '\t' <= c <= '\r'
    ||| c == ' '
    ||| c == '\u{85}'
    ||| c == '\u{A0}'
    ||| c == '\u{1680}'
    ||| '\u{2000}' <= c <= '\u{200A}'
    ||| c == '\u{2028}'
    ||| c == '\u{2029}'
    ||| c == '\u{202F}'
    ||| c == '\u{205F}'
    ||| c == '\u{3000}'
}

pub open spec fn decimals() -> Set<char> {
    Set::new(|c: char| is_decimal(c))
}

pub open spec fn spaces() -> Set<char> {
    Set::new(|c: char| is_space(c))
}

/// The first decimal digits that are none of `0` to `9` are those of Arabic script.
pub proof fn law_first_decimals()
    ensures
        forall|c: char|
            c < '\u{660}' ==> (#[trigger] decimals().contains(c) <==> '0' <= c <= '9'),
{
    reveal(is_decimal);
}

/// No decimal digit is a blank, a letter of the two patterns or one of their signs.
pub proof fn law_decimals_stand_apart(c: char)
    requires
        is_decimal(c),
    ensures
        !is_space(c),
        c != '#' && c != 's' && c != 'h' && c != 'S' && c != '|' && c != ':' && c != '/',
{
    reveal(is_decimal);
}

pub open spec fn all_in(class: Set<char>, s: Seq<char>) -> bool {
    forall|i: int| 0 <= i < s.len() ==> class.contains(#[trigger] s[i])
}

/// The fields of a shared result, as text.
pub struct ShareFields {
    pub id: Seq<char>,
    pub tries: Seq<char>,
    pub hours: Option<Seq<char>>,
    pub minutes: Seq<char>,
    pub seconds: Seq<char>,
}

impl ShareFields {
    /// The shared result that these fields make up.
    pub open spec fn text(self) -> Seq<char> {
        "SUTOM #"@ + self.id + " "@ + self.tries + "/6 "@ + self.time()
    }

    /// Its last part, the time.
    pub open spec fn time(self) -> Seq<char> {
        (match self.hours {
            Some(hours) => hours + "h"@,
            None => Seq::empty(),
        }) + self.minutes + ":"@ + self.seconds
    }

    /// Two digits, the first of them at most five.
    pub open spec fn is_sexagesimal(s: Seq<char>) -> bool {
        s.len() == 2 && '0' <= s[0] <= '5' && is_decimal(s[1])
    }

    pub open spec fn valid(self) -> bool {
        &&& self.id.len() > 0 && all_in(decimals(), self.id)
        &&& self.tries.len() == 1 && all_in(decimals(), self.tries)
        &&& match self.hours {
            Some(hours) => hours.len() > 0 && all_in(decimals(), hours),
            None => true,
        }
        &&& Self::is_sexagesimal(self.minutes)
        &&& Self::is_sexagesimal(self.seconds)
    }

    /// Whether these fields stand in `text` as a shared result that starts at `start`.
    pub open spec fn stand_at(self, text: Seq<char>, start: int) -> bool {
        &&& self.valid()
        &&& 0 <= start <= text.len()
        &&& self.text().is_prefix_of(text.skip(start))
    }

    pub open spec fn groups(self) -> Seq<Option<Seq<char>>> {
        seq![
            Some(self.text()),
            Some(self.id),
            Some(self.tries),
            self.hours,
            Some(self.minutes),
            Some(self.seconds),
        ]
    }
}

/// What `SHARE_PATTERN` means: `groups` are those of the shared result that starts first in
/// `text`, and there are none where no shared result stands in `text`.
pub open spec fn finds_share(text: Seq<char>, groups: Groups) -> bool {
    match groups {
        Some(found) => exists|start: int, fields: ShareFields| #[trigger]
            fields.stand_at(text, start) && found == fields.groups() && no_share_before(
                text,
                start,
            ),
        None => no_share_before(text, text.len() as int + 1),
    }
}

pub open spec fn no_share_before(text: Seq<char>, end: int) -> bool {
    forall|start: int, fields: ShareFields|
        start < end ==> !#[trigger] fields.stand_at(text, start)
}

/// `s` without the characters of `class` that it starts with.
pub open spec fn after_leading(class: Set<char>, s: Seq<char>) -> Seq<char>
    decreases s.len(),
{
    if s.len() > 0 && class.contains(s[0]) {
        after_leading(class, s.skip(1))
    } else {
        s
    }
}

/// The characters of `class` that `s` starts with.
pub open spec fn leading(class: Set<char>, s: Seq<char>) -> Seq<char> {
    s.take(s.len() - after_leading(class, s).len())
}

/// `s` without the character `c` that it may start with.
pub open spec fn after_optional(c: char, s: Seq<char>) -> Seq<char> {
    if s.len() > 0 && s[0] == c {
        s.skip(1)
    } else {
        s
    }
}

/// The grid that a request names, from the text that follows the word `!score`.
pub open spec fn named_grid(s: Seq<char>) -> Option<Seq<char>> {
    let number = after_leading(
        spaces(),
        after_optional('#', after_leading(spaces(), after_optional('s', s))),
    );
    if leading(decimals(), number).len() > 0 {
        Some(leading(decimals(), number))
    } else {
        None
    }
}

/// Whether the word `!score` stands in `text` at `start`.
pub open spec fn request_at(text: Seq<char>, start: int) -> bool {
    0 <= start <= text.len() && "!score"@.is_prefix_of(text.skip(start))
}

/// What `REQUEST_PATTERN` means: a request is made by the first word `!score` in `text`, and the
/// last group is the grid that it names.
pub open spec fn finds_request(text: Seq<char>, groups: Groups) -> bool {
    match groups {
        Some(found) => exists|start: int| #[trigger]
            request_at(text, start) && found.len() == 2 && found[1] == named_grid(
                text.skip(start + 6),
            ) && forall|earlier: int| earlier < start ==> !#[trigger] request_at(text, earlier),
        None => forall|start: int| !#[trigger] request_at(text, start),
    }
}

/// `Regex::captures`, on the pattern that `Regex::new` compiles. The groups that it gives depend
/// on the pattern and the text alone. As the documentation of `regex` has it, a search reports the
/// match that starts first, repetition is greedy, `\d` and `\s` are the classes `Decimal_Number` and
/// `White_Space` of Unicode, which `is_decimal` and `is_space` spell out as the tables of
/// `regex_syntax` do, and `Captures::iter` gives the groups in the order of their opening
/// parentheses: so `finds_share` and `finds_request` hold of the two patterns. `Regex::new` accepts
/// both; other patterns, on which it may fail, are left out.
#[verifier::external_body]
pub(crate) fn captures(pattern: &str, text: &str) -> (r: Option<Vec<Option<String>>>)
    requires
        pattern@ == SHARE_PATTERN@ || pattern@ == REQUEST_PATTERN@,
    ensures
        groups_view(r) == regex_captures(pattern@, text@),
        pattern@ == SHARE_PATTERN@ ==> finds_share(text@, groups_view(r)),
        pattern@ == REQUEST_PATTERN@ ==> finds_request(text@, groups_view(r)),
{
    let found = Regex::new(pattern).unwrap().captures(text)?;
    Some(found.iter().map(|group| group.map(|m| m.as_str().to_string())).collect())
}

/// The two patterns of which `finds_share` and `finds_request` tell the meaning.
pub proof fn law_patterns()
    ensures
        SHARE_PATTERN@
            == r"SUTOM #(?P<id>\d+) (?P<score>\d)/6 (?:(?P<hours>\d+)h)?(?P<minutes>[0-5]\d):(?P<seconds>[0-5]\d)"@,
        REQUEST_PATTERN@ == r"!scores?(?:\s*#?\s*(?P<grid_id>\d+))?"@,
{
}

/// A text that starts with two parts starts with the first of them, and goes on with the second.
proof fn lemma_parts(a: Seq<char>, b: Seq<char>, text: Seq<char>)
    requires
        (a + b).is_prefix_of(text),
    ensures
        a.is_prefix_of(text),
        b.is_prefix_of(text.skip(a.len() as int)),
{
    assert forall|i: int| 0 <= i < a.len() implies a[i] == text[i] by {
        assert((a + b)[i] == text.subrange(0, (a + b).len() as int)[i]);
    }
    assert(a =~= text.subrange(0, a.len() as int));
    let rest = text.skip(a.len() as int);
    assert forall|i: int| 0 <= i < b.len() implies b[i] == rest[i] by {
        assert((a + b)[a.len() + i] == text.subrange(0, (a + b).len() as int)[a.len() + i]);
    }
    assert(b =~= rest.subrange(0, b.len() as int));
}

/// Two texts of the same length that a text starts with are the same.
proof fn lemma_same_length(a: Seq<char>, b: Seq<char>, text: Seq<char>)
    requires
        a.is_prefix_of(text),
        b.is_prefix_of(text),
        a.len() == b.len(),
    ensures
        a == b,
{
}

/// The characters of a class that a text starts with, up to the first other character, are
/// determined by the text, and so is that character.
proof fn lemma_run(class: Set<char>, a: Seq<char>, x: char, b: Seq<char>, y: char, text: Seq<char>)
    requires
        (a + seq![x]).is_prefix_of(text),
        (b + seq![y]).is_prefix_of(text),
        all_in(class, a),
        all_in(class, b),
        !class.contains(x),
        !class.contains(y),
    ensures
        a == b,
        x == y,
{
    lemma_parts(a, seq![x], text);
    lemma_parts(b, seq![y], text);
    assert(text[a.len() as int] == x) by {
        assert(text.skip(a.len() as int).subrange(0, 1)[0] == x);
    }
    assert(text[b.len() as int] == y) by {
        assert(text.skip(b.len() as int).subrange(0, 1)[0] == y);
    }
    if a.len() < b.len() {
        assert(b[a.len() as int] == text.subrange(0, b.len() as int)[a.len() as int]);
        assert(class.contains(b[a.len() as int]));
    } else if b.len() < a.len() {
        assert(a[b.len() as int] == text.subrange(0, a.len() as int)[b.len() as int]);
        assert(class.contains(a[b.len() as int]));
    }
}

impl ShareFields {
    /// The time without its hours.
    spec fn clock(self) -> Seq<char> {
        self.minutes + ":"@ + self.seconds
    }

    proof fn lemma_clock(self, other: ShareFields, text: Seq<char>)
        requires
            self.valid(),
            other.valid(),
            self.clock().is_prefix_of(text),
            other.clock().is_prefix_of(text),
        ensures
            self.minutes == other.minutes,
            self.seconds == other.seconds,
    {
        reveal_strlit(":");
        lemma_parts(self.minutes + ":"@, self.seconds, text);
        lemma_parts(other.minutes + ":"@, other.seconds, text);
        lemma_parts(self.minutes, ":"@, text);
        lemma_parts(other.minutes, ":"@, text);
        lemma_same_length(self.minutes, other.minutes, text);
        lemma_same_length(self.seconds, other.seconds, text.skip(3));
    }

    /// A text that starts with hours does not start with minutes.
    proof fn lemma_hours_or_not(self, other: ShareFields, text: Seq<char>)
        requires
            self.valid(),
            other.valid(),
            self.hours is Some,
            other.hours is None,
            self.time().is_prefix_of(text),
        ensures
            !other.time().is_prefix_of(text),
    {
        reveal_strlit("h");
        reveal_strlit(":");
        law_first_decimals();
        let hours = self.hours->0;
        assert(self.time() =~= hours + seq!['h'] + self.clock());
        lemma_parts(hours + seq!['h'], self.clock(), text);
        if other.time().is_prefix_of(text) {
            assert(other.time() =~= other.minutes + seq![':'] + other.seconds);
            lemma_parts(other.minutes + seq![':'], other.seconds, text);
            assert(decimals().contains(other.minutes[0]));
            lemma_run(decimals(), hours, 'h', other.minutes, ':', text);
        }
    }

    proof fn lemma_time(self, other: ShareFields, text: Seq<char>)
        requires
            self.valid(),
            other.valid(),
            self.time().is_prefix_of(text),
            other.time().is_prefix_of(text),
        ensures
            self.hours == other.hours,
            self.minutes == other.minutes,
            self.seconds == other.seconds,
    {
        reveal_strlit("h");
        law_first_decimals();
        if self.hours is Some && other.hours is Some {
            let (a, b) = (self.hours->0, other.hours->0);
            assert(self.time() =~= a + seq!['h'] + self.clock());
            assert(other.time() =~= b + seq!['h'] + other.clock());
            lemma_parts(a + seq!['h'], self.clock(), text);
            lemma_parts(b + seq!['h'], other.clock(), text);
            lemma_run(decimals(), a, 'h', b, 'h', text);
            self.lemma_clock(other, text.skip(a.len() as int + 1));
        } else if self.hours is Some {
            self.lemma_hours_or_not(other, text);
        } else if other.hours is Some {
            other.lemma_hours_or_not(self, text);
        } else {
            assert(self.time() =~= self.clock());
            assert(other.time() =~= other.clock());
            self.lemma_clock(other, text);
        }
    }
}

impl ShareFields {
    /// A shared result starts with an `S`, which does not occur in it again, and holds no bar.
    pub(crate) proof fn lemma_characters(self)
        requires
            self.valid(),
        ensures
            self.text().len() > 0,
            self.text()[0] == 'S',
            forall|i: int| 0 < i < self.text().len() ==> #[trigger] self.text()[i] != 'S',
            forall|i: int| 0 <= i < self.text().len() ==> #[trigger] self.text()[i] != '|',
    {
        reveal_strlit("SUTOM #");
        reveal_strlit(" ");
        reveal_strlit("/6 ");
        reveal_strlit("h");
        reveal_strlit(":");
        law_first_decimals();
        assert forall|s: Seq<char>, i: int|
            all_in(decimals(), s) && 0 <= i < s.len() implies #[trigger] s[i] != 'S' && s[i]
            != '|' by {
            assert(decimals().contains(s[i]));
        }
        assert(decimals().contains(self.minutes[1]));
        assert(decimals().contains(self.seconds[1]));
    }
}

/// At one place of a text there stands at most one shared result.
pub proof fn law_share_is_unique(
    text: Seq<char>,
    start: int,
    a: ShareFields,
    b: ShareFields,
)
    requires
        a.stand_at(text, start),
        b.stand_at(text, start),
    ensures
        a == b,
{
    reveal_strlit("SUTOM #");
    reveal_strlit(" ");
    reveal_strlit("/6 ");
    law_first_decimals();
    let s = text.skip(start);
    let (ta, tb) = (a.tries + "/6 "@ + a.time(), b.tries + "/6 "@ + b.time());
    assert(a.text() =~= "SUTOM #"@ + (a.id + seq![' '] + ta));
    assert(b.text() =~= "SUTOM #"@ + (b.id + seq![' '] + tb));
    lemma_parts("SUTOM #"@, a.id + seq![' '] + ta, s);
    lemma_parts("SUTOM #"@, b.id + seq![' '] + tb, s);
    let s1 = s.skip(7);
    lemma_parts(a.id + seq![' '], ta, s1);
    lemma_parts(b.id + seq![' '], tb, s1);
    lemma_run(decimals(), a.id, ' ', b.id, ' ', s1);
    let s2 = s1.skip(a.id.len() as int + 1);
    lemma_parts(a.tries + "/6 "@, a.time(), s2);
    lemma_parts(b.tries + "/6 "@, b.time(), s2);
    lemma_parts(a.tries, "/6 "@, s2);
    lemma_parts(b.tries, "/6 "@, s2);
    lemma_same_length(a.tries, b.tries, s2);
    a.lemma_time(b, s2.skip(4));
}

} // verus!
