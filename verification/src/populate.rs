//! Taking over the history of bash.
use crate::api::{self, HistoryProvider, ItemView};
use crate::history::{shared_added, History};
use crate::text::{occurs, occurs_at, subslice_position, texts, to_chars};
use crate::timestamp::Timestamp;
use vstd::prelude::*;

verus! {

/// How the shell's own grammar sees a command line.
pub struct Grammar<F, G> {
    /// Whether parsing the line fails.
    pub parse_errored: F,
    /// Whether there are errors in the line, incomplete strings among them.
    pub has_parse_errors: G,
}

impl<F: Fn(&str) -> bool, G: Fn(&str) -> bool> Grammar<F, G> {
    /// The functions can be called on all lines.
    pub open spec fn ready(self) -> bool {
        &&& forall|line: &str| call_requires(self.parse_errored, (line,))
        &&& forall|line: &str| call_requires(self.has_parse_errors, (line,))
    }

    /// Parsing `line` may fail (`yes`) or not.
    pub open spec fn errs(self, line: Seq<char>, yes: bool) -> bool {
        exists|l: &str| l@ == line && #[trigger] call_ensures(self.parse_errored, (l,), yes)
    }

    /// There may be errors in `line` (`yes`) or not.
    pub open spec fn finds_errors(self, line: Seq<char>, yes: bool) -> bool {
        exists|l: &str| l@ == line && #[trigger] call_ensures(self.has_parse_errors, (l,), yes)
    }

    /// The grammar may take `line` (`yes`) or refuse it.
    pub open spec fn judges(self, line: Seq<char>, yes: bool) -> bool {
        if yes {
            self.errs(line, false) && self.finds_errors(line, false)
        } else {
            self.errs(line, true) || (self.errs(line, false) && self.finds_errors(line, true))
        }
    }
}

/// The characters that stand for something that does not work like ours: backticks, brace expansions,
/// globs, and the backslash before the end of a line.
pub open spec fn is_foreign(c: char) -> bool {
    c == '`' || c == '{' || c == '*' || c == '\\'
}

/// The line is none that we can handle: it is empty, a comment, or holds a construct that we do not have.
/// "<<" here is a proxy for heredocs (and herestrings).
pub open spec fn is_unfit(line: Seq<char>) -> bool {
    ||| line.len() == 0
    ||| line[0] == '#'
    ||| exists|i: int| 0 <= i < line.len() && is_foreign(#[trigger] line[i])
    ||| occurs(line, seq!['[', '['])
    ||| occurs(line, seq![']', ']'])
    ||| occurs(line, seq!['(', '('])
    ||| occurs(line, seq![')', ')'])
    ||| occurs(line, seq!['<', '<'])
}

/// The line may be imported (`yes`) or skipped.
pub open spec fn may_import<F: Fn(&str) -> bool, G: Fn(&str) -> bool>(
    line: Seq<char>,
    grammar: Grammar<F, G>,
    yes: bool,
) -> bool {
    if is_unfit(line) {
        !yes
    } else {
        grammar.judges(line, yes)
    }
}

/// Importing one line did this to the provider.
pub open spec fn line_imported<P: HistoryProvider, F: Fn(&str) -> bool, G: Fn(&str) -> bool>(
    before: P,
    line: Seq<char>,
    time: Timestamp,
    grammar: Grammar<F, G>,
    after: P,
) -> bool {
    ||| {
        &&& may_import(line, grammar, true)
        &&& shared_added(
            before,
            (ItemView { contents: line, creation_timestamp: time }),
            after,
        )
    }
    ||| {
        &&& may_import(line, grammar, false)
        &&& after == before
    }
}

/// Importing the lines, one after the other, did this to the provider.
pub open spec fn lines_imported<P: HistoryProvider, F: Fn(&str) -> bool, G: Fn(&str) -> bool>(
    before: P,
    lines: Seq<Seq<char>>,
    time: Timestamp,
    grammar: Grammar<F, G>,
    after: P,
) -> bool
    decreases lines.len(),
{
    if lines.len() == 0 {
        after == before
    } else {
        exists|mid: P|
            lines_imported(before, lines.drop_last(), time, grammar, mid)
                && #[trigger] line_imported(mid, lines.last(), time, grammar, after)
    }
}

/// Returns whether two characters `c` stand next to each other.
fn has_double(line: &[char], c: char) -> (yes: bool)
    ensures
        yes == occurs(line@, seq![c, c]),
{
    let mut pair: Vec<char> = Vec::new();
    pair.push(c);
    pair.push(c);
    assert(pair@ =~= seq![c, c]);
    subslice_position(line, pair.as_slice()).is_some()
}

/// Returns whether there is a character that does not work like ours.
fn has_foreign(line: &[char]) -> (yes: bool)
    ensures
        yes == exists|i: int| 0 <= i < line@.len() && is_foreign(#[trigger] line@[i]),
{
    let mut i: usize = 0;
    while i < line.len()
        invariant
            i <= line@.len(),
            forall|k: int| 0 <= k < i ==> !is_foreign(#[trigger] line@[k]),
        decreases line@.len() - i,
    {
        let c: char = line[i];
        if c == '`' || c == '{' || c == '*' || c == '\\' {
            assert(is_foreign(line@[i as int]));
            return true;
        }
        i = i + 1;
    }
    false
}

/// Returns whether a line of bash history doesn't contain anything we know we can't handle.
pub fn should_import_bash_history_line<F: Fn(&str) -> bool, G: Fn(&str) -> bool>(
    line: &str,
    grammar: &Grammar<F, G>,
) -> (yes: bool)
    requires
        grammar.ready(),
    ensures
        may_import(line@, *grammar, yes),
{
    let chars = to_chars(line);
    // The following are Very naive tests!
    if chars.len() == 0 || chars[0] == '#' {
        return false;
    }
    if has_foreign(chars.as_slice()) {
        return false;
    }
    if has_double(chars.as_slice(), '[') || has_double(chars.as_slice(), ']') || has_double(
        chars.as_slice(),
        '(',
    ) || has_double(chars.as_slice(), ')') || has_double(chars.as_slice(), '<') {
        return false;
    }
    let errored = (grammar.parse_errored)(line);
    assert(grammar.errs(line@, errored));
    if errored {
        return false;
    }

    // In doing this test do not allow incomplete strings.
    let has_errors = (grammar.has_parse_errors)(line);
    assert(grammar.finds_errors(line@, has_errors));
    !has_errors
}

impl<P: HistoryProvider> History<P> {
    /// Adds the lines of a bash history that we can handle, trimmed as they are. Pretend all items were
    /// created at this time.
    pub fn populate_from_bash<F: Fn(&str) -> bool, G: Fn(&str) -> bool>(
        &mut self,
        lines: Vec<String>,
        time: Timestamp,
        grammar: &Grammar<F, G>,
    )
        requires
            grammar.ready(),
        ensures
            lines_imported(
                old(self).shared(),
                texts(lines@),
                time,
                *grammar,
                final(self).shared(),
            ),
            final(self).local_items() == old(self).local_items(),
    {
        let ghost all = texts(lines@);
        let mut i: usize = 0;
        assert(lines_imported(self.shared(), all.take(0), time, *grammar, self.shared()));
        while i < lines.len()
            invariant
                grammar.ready(),
                i <= lines@.len(),
                all == texts(lines@),
                lines_imported(
                    old(self).shared(),
                    all.take(i as int),
                    time,
                    *grammar,
                    self.shared(),
                ),
                self.local_items() == old(self).local_items(),
            decreases lines@.len() - i,
        {
            let ghost mid = self.shared();
            let ghost upto = all.take(i + 1);
            assert(upto.drop_last() =~= all.take(i as int));
            // Add this line if it doesn't contain anything we know we can't handle.
            if should_import_bash_history_line(lines[i].as_str(), grammar) {
                self.add_to_provider(lines[i].clone(), time);
            }
            assert(line_imported(mid, upto.last(), time, *grammar, self.shared()));
            i = i + 1;
        }
        assert(all.take(i as int) =~= all);
    }
}

/// Empty lines, comments, and lines with any of the constructs that we do not have are not imported, wherever
/// in the line the construct stands.
pub proof fn lines_with_foreign_constructs_are_unfit(a: Seq<char>, b: Seq<char>, c: char)
    ensures
        is_unfit(Seq::empty()),
        is_unfit(seq!['#'] + b),
        c == '`' || c == '{' || c == '*' || c == '\\' ==> is_unfit(a + seq![c] + b),
        c == '[' || c == ']' || c == '(' || c == ')' || c == '<' ==> is_unfit(a + seq![c, c] + b),
{
    let comment = seq!['#'] + b;
    assert(comment[0] == '#');
    let one = a + seq![c] + b;
    assert(one[a.len() as int] == c);
    let two = a + seq![c, c] + b;
    assert(two.subrange(a.len() as int, a.len() as int + 2) =~= seq![c, c]);
    assert(occurs_at(two, seq![c, c], a.len() as int));
}

/// Any other line is fit.
pub proof fn other_lines_are_fit(line: Seq<char>)
    requires
        line.len() > 0,
        line[0] != '#',
        !line.contains('`'),
        !line.contains('{'),
        !line.contains('*'),
        !line.contains('\\'),
        forall|i: int|
            0 <= i < line.len() - 1 && (#[trigger] line[i] == '[' || line[i] == ']' || line[i] == '('
                || line[i] == ')' || line[i] == '<') ==> line[i + 1] != line[i],
    ensures
        !is_unfit(line),
{
    if exists|i: int| 0 <= i < line.len() && is_foreign(#[trigger] line[i]) {
        let i = choose|i: int| 0 <= i < line.len() && is_foreign(#[trigger] line[i]);
        assert(line.contains(line[i]));
    }
    assert forall|c: char| c == '[' || c == ']' || c == '(' || c == ')' || c == '<' implies !occurs(
        line,
        #[trigger] seq![c, c],
    ) by {
        if occurs(line, seq![c, c]) {
            let at = choose|at: int| occurs_at(line, seq![c, c], at);
            let part = line.subrange(at, at + 2);
            assert(part[0] == c && part[1] == c);
            assert(line[at] == c);
            assert(line[at + 1] == c);
        }
    }
}

/// A line that is unfit or that the grammar refuses is skipped; one that is fit and that the grammar takes is
/// added, as it is, with the given time.
pub proof fn a_line_is_added_if_the_grammar_takes_it<
    P: HistoryProvider,
    F: Fn(&str) -> bool,
    G: Fn(&str) -> bool,
>(before: P, line: Seq<char>, time: Timestamp, grammar: Grammar<F, G>, after: P)
    requires
        line_imported(before, line, time, grammar, after),
    ensures
        is_unfit(line) ==> after == before,
        grammar.errs(line, true) && !grammar.errs(line, false) ==> after == before,
        grammar.finds_errors(line, true) && !grammar.finds_errors(line, false) ==> after == before,
        !is_unfit(line) && !grammar.errs(line, true) && !grammar.finds_errors(line, true) ==> exists|
            added: api::HistoryItem,
        |
            added@.contents == line && added@.creation_timestamp == time && #[trigger] P::item_added(
                &before,
                added,
                &after,
            ),
{
}

/// Importing lines is importing the first of them, and then the others.
pub proof fn lines_are_imported_one_by_one<
    P: HistoryProvider,
    F: Fn(&str) -> bool,
    G: Fn(&str) -> bool,
>(
    before: P,
    a: Seq<Seq<char>>,
    b: Seq<Seq<char>>,
    line: Seq<char>,
    time: Timestamp,
    grammar: Grammar<F, G>,
    after: P,
)
    ensures
        lines_imported(before, a + b, time, grammar, after) ==> exists|mid: P| #[trigger]
            lines_imported(before, a, time, grammar, mid) && lines_imported(
                mid,
                b,
                time,
                grammar,
                after,
            ),
        lines_imported(before, seq![line], time, grammar, after) ==> line_imported(
            before,
            line,
            time,
            grammar,
            after,
        ),
        lines_imported(before, Seq::empty(), time, grammar, after) ==> after == before,
    decreases b.len(),
{
    if lines_imported(before, seq![line], time, grammar, after) {
        let none = seq![line].drop_last();
        assert(none =~= Seq::empty());
        let mid = choose|mid: P|
            lines_imported(before, none, time, grammar, mid) && #[trigger] line_imported(
                mid,
                line,
                time,
                grammar,
                after,
            );
        assert(mid == before);
    }
    if lines_imported(before, a + b, time, grammar, after) {
        if b.len() == 0 {
            assert(a + b =~= a);
            assert(lines_imported(after, b, time, grammar, after));
        } else {
            let less = (a + b).drop_last();
            assert(less =~= a + b.drop_last());
            let end = choose|end: P|
                lines_imported(before, less, time, grammar, end) && #[trigger] line_imported(
                    end,
                    (a + b).last(),
                    time,
                    grammar,
                    after,
                );
            lines_are_imported_one_by_one(before, a, b.drop_last(), line, time, grammar, end);
            let mid = choose|mid: P| #[trigger]
                lines_imported(before, a, time, grammar, mid) && lines_imported(
                    mid,
                    b.drop_last(),
                    time,
                    grammar,
                    end,
                );
            assert(line_imported(end, b.last(), time, grammar, after));
            assert(lines_imported(mid, b, time, grammar, after));
        }
    }
}

} // verus!
