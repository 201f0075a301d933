//! Text in terms of its characters: splitting strings into characters, building them back up, and
//! the ways in which one piece of text can occur in another.
use vstd::prelude::*;

verus! {

/// `String::push`: the character goes to the end, and nothing else changes.
pub assume_specification[ String::push ](s: &mut String, c: char)
    ensures
        final(s)@ == old(s)@.push(c),
;

/// The text of a string that may be missing.
pub open spec fn opt_text(s: Option<String>) -> Option<Seq<char>> {
    match s {
        Some(s) => Some(s@),
        None => None,
    }
}

/// The lowercase mapping of one character.
pub uninterp spec fn char_lowercase(c: char) -> Seq<char>;

/// Calls `char::to_lowercase` and collects the characters that it yields. The mapping itself is
/// Unicode data: only that it depends on nothing but the character is claimed.
#[verifier::external_body]
fn lowercase_char(c: char) -> (out: Vec<char>)
    ensures
        out@ == char_lowercase(c),
{
    c.to_lowercase().collect()
}

/// `text` with every character replaced by its lowercase mapping.
pub open spec fn lowercase(text: Seq<char>) -> Seq<char>
    decreases text.len(),
{
    if text.len() == 0 {
        Seq::empty()
    } else {
        lowercase(text.drop_last()) + char_lowercase(text.last())
    }
}

/// `needle` stands in `haystack` at position `at`.
pub open spec fn occurs_at(haystack: Seq<char>, needle: Seq<char>, at: int) -> bool {
    &&& 0 <= at
    &&& at + needle.len() <= haystack.len()
    &&& haystack.subrange(at, at + needle.len()) == needle
}

/// `needle` stands in `haystack` somewhere.
pub open spec fn occurs(haystack: Seq<char>, needle: Seq<char>) -> bool {
    exists|at: int| occurs_at(haystack, needle, at)
}

/// `[start, end)` is a line of `text`: newlines or the ends of the text enclose it, and none is
/// inside.
pub open spec fn is_line(text: Seq<char>, start: int, end: int) -> bool {
    &&& 0 <= start <= end <= text.len()
    &&& start == 0 || text[start - 1] == '\n'
    &&& end == text.len() || text[end] == '\n'
    &&& forall|i: int| start <= i < end ==> text[i] != '\n'
}

/// Some line of `text` starts with `prefix`.
pub open spec fn some_line_starts_with(text: Seq<char>, prefix: Seq<char>) -> bool {
    exists|start: int, end: int| #[trigger]
        is_line(text, start, end) && prefix.is_prefix_of(text.subrange(start, end))
}

/// `places` are strictly increasing positions of `haystack` that spell `needle`.
pub open spec fn spells(haystack: Seq<char>, needle: Seq<char>, places: Seq<int>) -> bool {
    &&& places.len() == needle.len()
    &&& forall|k: int|
        0 <= k < places.len() ==> 0 <= #[trigger] places[k] < haystack.len() && haystack[places[k]]
            == needle[k]
    &&& forall|j: int, k: int|
        0 <= j < k < places.len() ==> #[trigger] places[j] < #[trigger] places[k]
}

/// The characters of `needle` occur in `haystack` in order, with anything between them.
pub open spec fn is_subsequence(haystack: Seq<char>, needle: Seq<char>) -> bool {
    exists|places: Seq<int>| spells(haystack, needle, places)
}

/// The characters of a string.
pub fn to_chars(text: &str) -> (out: Vec<char>)
    ensures
        out@ == text@,
{
    let mut out: Vec<char> = Vec::new();
    for c in it: text.chars()
        invariant
            it.seq() == text@,
            out@ == text@.take(it.index()),
    {
        out.push(c);
    }
    out
}

/// The string with the given characters.
pub fn from_chars(chars: &[char]) -> (out: String)
    ensures
        out@ == chars@,
{
    let mut out = String::new();
    let mut i: usize = 0;
    while i < chars.len()
        invariant
            i <= chars@.len(),
            out@ == chars@.take(i as int),
        decreases chars@.len() - i,
    {
        out.push(chars[i]);
        i = i + 1;
        assert(chars@.take(i as int) =~= chars@.take(i - 1).push(chars@[i - 1]));
    }
    assert(chars@.take(i as int) =~= chars@);
    out
}

/// The text in lowercase, character by character.
pub fn to_lowercase(text: &str) -> (out: String)
    ensures
        out@ == lowercase(text@),
{
    let chars = to_chars(text);
    let mut out: Vec<char> = Vec::new();
    let mut i: usize = 0;
    while i < chars.len()
        invariant
            i <= chars@.len(),
            chars@ == text@,
            out@ == lowercase(chars@.take(i as int)),
        decreases chars@.len() - i,
    {
        let mut mapped = lowercase_char(chars[i]);
        out.append(&mut mapped);
        i = i + 1;
        assert(chars@.take(i as int).drop_last() =~= chars@.take(i - 1));
    }
    assert(chars@.take(i as int) =~= chars@);
    from_chars(out.as_slice())
}

/// Whether `needle` stands in `haystack` at `at`.
fn stands_at(haystack: &[char], needle: &[char], at: usize) -> (found: bool)
    requires
        at + needle@.len() <= haystack@.len(),
    ensures
        found == occurs_at(haystack@, needle@, at as int),
{
    let len: usize = haystack.len();
    let mut i: usize = 0;
    while i < needle.len()
        invariant
            i <= needle@.len(),
            len == haystack@.len(),
            at + needle@.len() <= len,
            forall|j: int| 0 <= j < i ==> #[trigger] needle@[j] == haystack@[at + j],
        decreases needle@.len() - i,
    {
        if haystack[at + i] != needle[i] {
            assert(haystack@.subrange(at as int, at + needle@.len())[i as int] != needle@[i as int]);
            return false;
        }
        i = i + 1;
    }
    assert(haystack@.subrange(at as int, at + needle@.len()) =~= needle@);
    true
}

/// The first position at which `needle` stands in `haystack`.
pub fn subslice_position(haystack: &[char], needle: &[char]) -> (position: Option<usize>)
    ensures
        match position {
            Some(at) => occurs_at(haystack@, needle@, at as int) && forall|j: int|
                0 <= j < at ==> !occurs_at(haystack@, needle@, j),
            None => !occurs(haystack@, needle@),
        },
{
    if needle.len() > haystack.len() {
        return None;
    }
    let last: usize = haystack.len() - needle.len();
    let mut at: usize = 0;
    loop
        invariant
            at <= last,
            last == haystack@.len() - needle@.len(),
            forall|j: int| 0 <= j < at ==> !occurs_at(haystack@, needle@, j),
        decreases last - at,
    {
        if stands_at(haystack, needle, at) {
            return Some(at);
        }
        if at == last {
            return None;
        }
        at = at + 1;
    }
}

/// Whether `text` begins with `prefix`.
pub fn starts_with(text: &[char], prefix: &[char]) -> (yes: bool)
    ensures
        yes == prefix@.is_prefix_of(text@),
{
    if prefix.len() > text.len() {
        return false;
    }
    let yes = stands_at(text, prefix, 0);
    assert(text@.subrange(0, prefix@.len() as int) =~= prefix@ <==> prefix@.is_prefix_of(text@)) by {
        if prefix@.is_prefix_of(text@) {
            assert(text@.subrange(0, prefix@.len() as int) =~= prefix@);
        }
    }
    yes
}

/// Whether some line of `text` begins with `prefix`.
pub fn any_line_starts_with(text: &[char], prefix: &[char]) -> (yes: bool)
    ensures
        yes == some_line_starts_with(text@, prefix@),
{
    let len: usize = text.len();
    let mut start: usize = 0;
    loop
        invariant
            len == text@.len(),
            start <= len,
            start == 0 || text@[start - 1] == '\n',
            forall|s: int, e: int|
                s < start && #[trigger] is_line(text@, s, e) ==> !prefix@.is_prefix_of(
                    text@.subrange(s, e),
                ),
        decreases len - start,
    {
        let mut end: usize = start;
        while end < len && text[end] != '\n'
            invariant
                len == text@.len(),
                start <= end <= len,
                forall|i: int| start <= i < end ==> text@[i] != '\n',
            decreases len - end,
        {
            end = end + 1;
        }
        let ghost line = text@.subrange(start as int, end as int);
        assert(is_line(text@, start as int, end as int));
        if prefix.len() <= end - start && stands_at(text, prefix, start) {
            assert(line.subrange(0, prefix@.len() as int) =~= text@.subrange(
                start as int,
                start + prefix@.len(),
            ));
            return true;
        }
        assert(!prefix@.is_prefix_of(line)) by {
            if prefix@.is_prefix_of(line) {
                assert(text@.subrange(start as int, start + prefix@.len()) =~= line.subrange(
                    0,
                    prefix@.len() as int,
                ));
            }
        }
        assert forall|s: int, e: int| s <= end && #[trigger] is_line(text@, s, e) implies !prefix@.is_prefix_of(text@.subrange(s, e)) by {
            if s == start {
                assert(e == end) by {
                    if e < end {
                        assert(text@[e] == '\n');
                    }
                }
            } else if s > start {
                assert(text@[s - 1] == '\n');
            }
        }
        if end == len {
            return false;
        }
        start = end + 1;
    }
}

/// What is spelt out still is when the text goes on.
proof fn lemma_spells_longer(haystack: Seq<char>, needle: Seq<char>, places: Seq<int>, i: int)
    requires
        0 <= i < haystack.len(),
        spells(haystack.take(i), needle, places),
    ensures
        spells(haystack.take(i + 1), needle, places),
{
    assert forall|k: int| 0 <= k < places.len() implies 0 <= #[trigger] places[k] < haystack.take(i + 1).len()
        && haystack.take(i + 1)[places[k]] == needle[k] by {
        assert(haystack.take(i)[places[k]] == haystack.take(i + 1)[places[k]]);
    }
}

/// The first `k + 1` places alone spell the first `k + 1` characters, in the text before `limit` if
/// they all lie there.
proof fn lemma_spells_prefix(
    haystack: Seq<char>,
    needle: Seq<char>,
    places: Seq<int>,
    k: int,
    limit: int,
)
    requires
        spells(haystack, needle, places),
        0 <= k < needle.len(),
        0 <= limit <= haystack.len(),
        places[k] < limit,
    ensures
        spells(haystack.take(limit), needle.take(k + 1), places.take(k + 1)),
{
    let shorter = places.take(k + 1);
    assert forall|j: int| 0 <= j < shorter.len() implies 0 <= #[trigger] shorter[j] < haystack.take(limit).len()
        && haystack.take(limit)[shorter[j]] == needle.take(k + 1)[j] by {
        assert(places[j] <= places[k]);
    }
}

/// Whether the characters of `needle` occur in `haystack` in order.
pub fn subsequence_in_string(needle: &[char], haystack: &[char]) -> (yes: bool)
    ensures
        yes == is_subsequence(haystack@, needle@),
{
    let mut found: usize = 0;
    let mut i: usize = 0;
    let ghost mut places: Seq<int> = Seq::empty();
    proof {
        let none = haystack@.take(0);
        let one = needle@.take(1);
        if needle@.len() > 0 && is_subsequence(none, one) {
            let p = choose|p: Seq<int>| spells(none, one, p);
            assert(p[0] < none.len());
        }
    }
    while i < haystack.len()
        invariant
            i <= haystack@.len(),
            found <= needle@.len(),
            spells(haystack@.take(i as int), needle@.take(found as int), places),
            found < needle@.len() ==> !is_subsequence(
                haystack@.take(i as int),
                needle@.take(found + 1),
            ),
        decreases haystack@.len() - i,
    {
        let ghost before = haystack@.take(i as int);
        let ghost after = haystack@.take(i + 1);
        let ghost had = found as int;
        proof {
            lemma_spells_longer(haystack@, needle@.take(had), places, i as int);
            assert(after.take(i as int) =~= before);
        }
        if found < needle.len() && haystack[i] == needle[found] {
            found = found + 1;
            proof {
                places = places.push(i as int);
                assert(spells(after, needle@.take(found as int), places));
                if found < needle@.len() && is_subsequence(after, needle@.take(found + 1)) {
                    let wanted = needle@.take(had + 2);
                    let p = choose|p: Seq<int>| spells(after, wanted, p);
                    assert(p[had] < p[had + 1]);
                    lemma_spells_prefix(after, needle@.take(found + 1), p, had, i as int);
                    assert(needle@.take(found + 1).take(had + 1) =~= needle@.take(had + 1));
                    assert(is_subsequence(before, needle@.take(had + 1)));
                }
            }
        } else {
            proof {
                if found < needle@.len() && is_subsequence(after, needle@.take(found + 1)) {
                    let wanted = needle@.take(had + 1);
                    let p = choose|p: Seq<int>| spells(after, wanted, p);
                    assert(after[p[had]] == needle@[had]);
                    lemma_spells_prefix(after, needle@.take(found + 1), p, had, i as int);
                    assert(needle@.take(found + 1).take(had + 1) =~= needle@.take(had + 1));
                    assert(is_subsequence(before, needle@.take(had + 1)));
                }
            }
        }
        i = i + 1;
    }
    proof {
        assert(haystack@.take(i as int) =~= haystack@);
        if found == needle@.len() {
            assert(needle@.take(found as int) =~= needle@);
        } else if is_subsequence(haystack@, needle@) {
            let p = choose|p: Seq<int>| spells(haystack@, needle@, p);
            lemma_spells_prefix(haystack@, needle@, p, found as int, haystack@.len() as int);
        }
    }
    found == needle.len()
}

/// The texts of a list of strings.
pub open spec fn texts(strings: Seq<String>) -> Seq<Seq<char>> {
    strings.map_values(|s: String| s@)
}

/// A copy of a list of strings.
pub fn clone_strings(strings: &Vec<String>) -> (copy: Vec<String>)
    ensures
        copy@ == strings@,
{
    let mut copy: Vec<String> = Vec::new();
    let mut i: usize = 0;
    while i < strings.len()
        invariant
            i <= strings@.len(),
            copy@ == strings@.take(i as int),
        decreases strings@.len() - i,
    {
        copy.push(strings[i].clone());
        i = i + 1;
        assert(strings@.take(i as int) =~= strings@.take(i - 1).push(strings@[i - 1]));
    }
    assert(strings@.take(i as int) =~= strings@);
    copy
}

/// The lowercase form of two texts, one behind the other, is made of theirs; that of a single character is its
/// mapping.
pub proof fn lowercase_goes_character_by_character(a: Seq<char>, b: Seq<char>, c: char)
    ensures
        lowercase(a + b) == lowercase(a) + lowercase(b),
        lowercase(seq![c]) == char_lowercase(c),
    decreases b.len(),
{
    reveal_with_fuel(lowercase, 2);
    assert(seq![c].drop_last() =~= Seq::empty());
    assert(Seq::<char>::empty() + char_lowercase(c) =~= char_lowercase(c));
    if b.len() == 0 {
        assert(a + b =~= a);
        assert(lowercase(a) + lowercase(b) =~= lowercase(a));
    } else {
        lowercase_goes_character_by_character(a, b.drop_last(), c);
        assert((a + b).drop_last() =~= a + b.drop_last());
        assert(lowercase(a + b) =~= lowercase(a) + lowercase(b));
    }
}

/// A text occurs in another just if something before it and something behind it make the other.
pub proof fn what_occurs_has_something_on_both_sides(
    haystack: Seq<char>,
    needle: Seq<char>,
    before: Seq<char>,
    behind: Seq<char>,
)
    ensures
        occurs(before + needle + behind, needle),
        occurs(haystack, needle) ==> exists|a: Seq<char>, b: Seq<char>|
            haystack == #[trigger] (a + needle + b),
{
    let made = before + needle + behind;
    assert(made.subrange(before.len() as int, before.len() as int + needle.len()) =~= needle);
    assert(occurs_at(made, needle, before.len() as int));
    if occurs(haystack, needle) {
        let at = choose|at: int| occurs_at(haystack, needle, at);
        let a = haystack.take(at);
        let b = haystack.skip(at + needle.len());
        assert(haystack =~= a + needle + b) by {
            assert forall|i: int| at <= i < at + needle.len() implies haystack[i] == needle[i
                - at] by {
                assert(haystack.subrange(at, at + needle.len())[i - at] == needle[i - at]);
            }
        }
    }
}

/// A line that begins at `start` ends somewhere.
proof fn lemma_line_ends(text: Seq<char>, start: int, from: int)
    requires
        0 <= start <= from <= text.len(),
        start == 0 || text[start - 1] == '\n',
        forall|i: int| start <= i < from ==> text[i] != '\n',
    ensures
        exists|end: int| from <= end && #[trigger] is_line(text, start, end),
    decreases text.len() - from,
{
    if from == text.len() || text[from] == '\n' {
        assert(is_line(text, start, from));
    } else {
        lemma_line_ends(text, start, from + 1);
    }
}

/// Some line begins with a text that has no newline just if the whole text does, or if it occurs behind a
/// newline. No line begins with a text that has one.
pub proof fn lines_begin_behind_newlines(text: Seq<char>, prefix: Seq<char>)
    ensures
        prefix.contains('\n') ==> !some_line_starts_with(text, prefix),
        !prefix.contains('\n') ==> (some_line_starts_with(text, prefix) <==> prefix.is_prefix_of(text)
            || occurs(text, seq!['\n'] + prefix)),
{
    let wanted = seq!['\n'] + prefix;
    if some_line_starts_with(text, prefix) {
        let (start, end) = choose|start: int, end: int| #[trigger]
            is_line(text, start, end) && prefix.is_prefix_of(text.subrange(start, end));
        let line = text.subrange(start, end);
        assert forall|k: int| 0 <= k < prefix.len() implies prefix[k] == text[start + k] by {
            assert(line[k] == prefix[k]);
        }
        if prefix.contains('\n') {
            let k = choose|k: int| 0 <= k < prefix.len() && prefix[k] == '\n';
            assert(text[start + k] != '\n');
        }
        if start == 0 {
            assert(text.subrange(0, prefix.len() as int) =~= prefix);
        } else {
            assert(text.subrange(start - 1, start - 1 + wanted.len()) =~= wanted);
            assert(occurs_at(text, wanted, start - 1));
        }
    }
    if !prefix.contains('\n') && (prefix.is_prefix_of(text) || occurs(text, wanted)) {
        lemma_some_line(text, prefix, wanted);
    }
}

/// A text without a newline that begins the whole or stands behind a newline begins a line.
proof fn lemma_some_line(text: Seq<char>, prefix: Seq<char>, wanted: Seq<char>)
    requires
        !prefix.contains('\n'),
        wanted == seq!['\n'] + prefix,
        prefix.is_prefix_of(text) || occurs(text, wanted),
    ensures
        some_line_starts_with(text, prefix),
{
    let start: int = if prefix.is_prefix_of(text) {
        0
    } else {
        (choose|at: int| occurs_at(text, wanted, at)) + 1
    };
    let part = text.subrange(start - 1, start - 1 + wanted.len());
    assert forall|k: int| 0 <= k < prefix.len() implies text[start + k] == prefix[k] by {
        if start > 0 {
            assert(part[k + 1] == wanted[k + 1]);
        }
    }
    if start > 0 {
        assert(part[0] == wanted[0]);
    }
    assert forall|i: int| start <= i < start + prefix.len() implies text[i] != '\n' by {
        assert(prefix[i - start] == text[i]);
    }
    lemma_line_ends(text, start, start + prefix.len());
    let end = choose|end: int|
        start + prefix.len() <= end && #[trigger] is_line(text, start, end);
    let line = text.subrange(start, end);
    assert(line.subrange(0, prefix.len() as int) =~= prefix);
}

/// The empty text is spelt everywhere. Any other is just if its first character occurs, and the rest of it is
/// spelt behind that.
pub proof fn a_subsequence_goes_on_behind_its_first_character(haystack: Seq<char>, needle: Seq<char>)
    ensures
        needle.len() == 0 ==> is_subsequence(haystack, needle),
        needle.len() > 0 ==> (is_subsequence(haystack, needle) <==> exists|i: int|
            0 <= i < haystack.len() && #[trigger] haystack[i] == needle[0] && is_subsequence(
                haystack.skip(i + 1),
                needle.drop_first(),
            )),
{
    if needle.len() == 0 {
        assert(spells(haystack, needle, Seq::empty()));
    } else {
        if is_subsequence(haystack, needle) {
            let p = choose|p: Seq<int>| spells(haystack, needle, p);
            let i = p[0];
            let q = Seq::new((p.len() - 1) as nat, |k: int| p[k + 1] - i - 1);
            assert(haystack[i] == needle[0]);
            assert forall|k: int| 0 <= k < q.len() implies 0 <= #[trigger] q[k] < haystack.skip(
                i + 1,
            ).len() && haystack.skip(i + 1)[q[k]] == needle.drop_first()[k] by {
                assert(p[0] < p[k + 1]);
                assert(haystack[p[k + 1]] == needle[k + 1]);
            }
            assert forall|j: int, k: int| 0 <= j < k < q.len() implies #[trigger] q[j]
                < #[trigger] q[k] by {
                assert(p[j + 1] < p[k + 1]);
            }
            assert(spells(haystack.skip(i + 1), needle.drop_first(), q));
        }
        if exists|i: int|
            0 <= i < haystack.len() && #[trigger] haystack[i] == needle[0] && is_subsequence(
                haystack.skip(i + 1),
                needle.drop_first(),
            ) {
            let i = choose|i: int|
                0 <= i < haystack.len() && #[trigger] haystack[i] == needle[0] && is_subsequence(
                    haystack.skip(i + 1),
                    needle.drop_first(),
                );
            let rest = haystack.skip(i + 1);
            let q = choose|q: Seq<int>| spells(rest, needle.drop_first(), q);
            let p = seq![i] + Seq::new(q.len(), |k: int| q[k] + i + 1);
            assert forall|k: int| 0 <= k < p.len() implies 0 <= #[trigger] p[k] < haystack.len()
                && haystack[p[k]] == needle[k] by {
                if k > 0 {
                    assert(rest[q[k - 1]] == needle.drop_first()[k - 1]);
                }
            }
            assert forall|j: int, k: int| 0 <= j < k < p.len() implies #[trigger] p[j]
                < #[trigger] p[k] by {
                assert(q[k - 1] >= 0);
                if j > 0 {
                    assert(q[j - 1] < q[k - 1]);
                }
            }
            assert(spells(haystack, needle, p));
        }
    }
}

} // verus!
